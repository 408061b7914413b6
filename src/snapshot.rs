use vstd::prelude::*;

use crate::types::Vec2i;

verus! {

/// Line separator of the snapshot text.
pub const NEWLINE: u8 = 10;

/// The ASCII digit zero.
pub const ZERO: u8 = 48;

/// The ASCII minus sign.
pub const MINUS: u8 = 45;

/// What a saved run holds: the score, the random seed and the player's
/// position.
#[derive(Clone, Copy, PartialEq, Eq, Structural, Debug)]
pub struct Snapshot {
    pub score: usize,
    pub seed: u64,
    pub position: Vec2i,
}

/// Decimal digits of `n`, most significant first, without leading zeros.
pub open spec fn nat_text(n: nat) -> Seq<u8>
    decreases n,
{
    if n < 10 {
        seq![(ZERO + n) as u8]
    } else {
        nat_text(n / 10).push((ZERO + n % 10) as u8)
    }
}

/// Decimal text of `i`, with a leading minus sign when it is negative.
pub open spec fn int_text(i: int) -> Seq<u8> {
    if i < 0 {
        seq![MINUS] + nat_text((-i) as nat)
    } else {
        nat_text(i as nat)
    }
}

/// The snapshot as four lines: score, seed, x and y.
pub open spec fn snapshot_text(s: Snapshot) -> Seq<u8> {
    nat_text(s.score as nat) + seq![NEWLINE] + nat_text(s.seed as nat) + seq![NEWLINE] + int_text(
        s.position.0 as int,
    ) + seq![NEWLINE] + int_text(s.position.1 as int)
}

pub open spec fn is_digit(b: u8) -> bool {
    ZERO <= b < ZERO + 10
}

/// A non-empty run of decimal digits.
pub open spec fn all_digits(s: Seq<u8>) -> bool {
    s.len() > 0 && forall|i: int| 0 <= i < s.len() ==> is_digit(#[trigger] s[i])
}

/// The number that the digits `s` spell.
pub open spec fn digits_value(s: Seq<u8>) -> nat
    decreases s.len(),
{
    if s.len() == 0 {
        0
    } else {
        digits_value(s.drop_last()) * 10 + (s.last() - ZERO) as nat
    }
}

/// The number a line spells, when it is a run of digits.
pub open spec fn parse_nat(s: Seq<u8>) -> Option<nat> {
    if all_digits(s) {
        Some(digits_value(s))
    } else {
        None
    }
}

/// The number a line spells, when it is a run of digits after an optional
/// minus sign.
pub open spec fn parse_int(s: Seq<u8>) -> Option<int> {
    if s.len() > 0 && s[0] == MINUS {
        match parse_nat(s.drop_first()) {
            Some(n) => Some(-n),
            None => None,
        }
    } else {
        match parse_nat(s) {
            Some(n) => Some(n as int),
            None => None,
        }
    }
}

/// The lines of `s`, split at every `sep`; text without a separator is one
/// line.
pub open spec fn split_lines(s: Seq<u8>, sep: u8) -> Seq<Seq<u8>>
    decreases s.len(),
{
    if s.len() == 0 {
        seq![Seq::empty()]
    } else {
        let prev = split_lines(s.drop_last(), sep);
        if s.last() == sep {
            prev.push(Seq::empty())
        } else {
            prev.update(prev.len() - 1, prev.last().push(s.last()))
        }
    }
}

/// The snapshot that a text holds: exactly four lines, each a number within
/// its field's range.
pub open spec fn parse_snapshot(s: Seq<u8>) -> Option<Snapshot> {
    let ls = split_lines(s, NEWLINE);
    if ls.len() != 4 {
        None
    } else {
        match (parse_nat(ls[0]), parse_nat(ls[1]), parse_int(ls[2]), parse_int(ls[3])) {
            (Some(score), Some(seed), Some(x), Some(y)) => {
                if score <= usize::MAX && seed <= u64::MAX && i32::MIN <= x <= i32::MAX
                    && i32::MIN <= y <= i32::MAX {
                    Some(
                        Snapshot {
                            score: score as usize,
                            seed: seed as u64,
                            position: Vec2i(x as i32, y as i32),
                        },
                    )
                } else {
                    None
                }
            },
            _ => None,
        }
    }
}

/// The lines of text never hold fewer than one line.
proof fn lemma_split_nonempty(s: Seq<u8>, sep: u8)
    ensures
        split_lines(s, sep).len() >= 1,
    decreases s.len(),
{
    if s.len() > 0 {
        lemma_split_nonempty(s.drop_last(), sep);
    }
}

/// The digits of a number are digits and spell it.
proof fn lemma_nat_text(n: nat)
    ensures
        all_digits(nat_text(n)),
        digits_value(nat_text(n)) == n,
    decreases n,
{
    if n >= 10 {
        lemma_nat_text(n / 10);
        let t = nat_text(n / 10);
        assert(nat_text(n).drop_last() =~= t);
        assert(nat_text(n).last() == (ZERO + n % 10) as u8);
        assert(nat_text(n).last() - ZERO == n % 10);
        assert(digits_value(nat_text(n)) == digits_value(t) * 10 + n % 10);
        assert((n / 10) * 10 + n % 10 == n) by (nonlinear_arith);
        assert forall|i: int| 0 <= i < nat_text(n).len() implies is_digit(
            #[trigger] nat_text(n)[i],
        ) by {
            if i < t.len() {
                assert(nat_text(n)[i] == t[i]);
            }
        }
    } else {
        assert(nat_text(n).drop_last() =~= Seq::<u8>::empty());
        assert(nat_text(n).last() - ZERO == n);
        assert(digits_value(nat_text(n)) == digits_value(Seq::<u8>::empty()) * 10 + n);
    }
}

/// Text without a separator is a single line.
proof fn lemma_split_plain(s: Seq<u8>, sep: u8)
    requires
        forall|i: int| 0 <= i < s.len() ==> s[i] != sep,
    ensures
        split_lines(s, sep) == seq![s],
    decreases s.len(),
{
    if s.len() > 0 {
        lemma_split_plain(s.drop_last(), sep);
        assert(s.drop_last().push(s.last()) =~= s);
        assert(split_lines(s, sep) =~= seq![s]);
    } else {
        assert(s =~= Seq::<u8>::empty());
    }
}

/// A separator followed by text without one adds that text as a new line.
proof fn lemma_split_append(x: Seq<u8>, y: Seq<u8>, sep: u8)
    requires
        forall|i: int| 0 <= i < y.len() ==> y[i] != sep,
    ensures
        split_lines(x + seq![sep] + y, sep) == split_lines(x, sep).push(y),
    decreases y.len(),
{
    lemma_split_nonempty(x, sep);
    if y.len() == 0 {
        assert((x + seq![sep] + y).drop_last() =~= x);
        assert(y =~= Seq::<u8>::empty());
    } else {
        let yl = y.drop_last();
        lemma_split_append(x, yl, sep);
        assert((x + seq![sep] + y).drop_last() =~= x + seq![sep] + yl);
        assert(yl.push(y.last()) =~= y);
        assert(split_lines(x + seq![sep] + y, sep) =~= split_lines(x, sep).push(y));
    }
}

/// Number text holds no line separator.
proof fn lemma_int_text_plain(i: int)
    ensures
        forall|k: int| 0 <= k < int_text(i).len() ==> #[trigger] int_text(i)[k] != NEWLINE,
        parse_int(int_text(i)) == Some(i),
{
    if i < 0 {
        lemma_nat_text((-i) as nat);
        let t = nat_text((-i) as nat);
        assert((seq![MINUS] + t).drop_first() =~= t);
        assert forall|k: int| 0 <= k < int_text(i).len() implies #[trigger] int_text(i)[k]
            != NEWLINE by {
            if k > 0 {
                assert(int_text(i)[k] == t[k - 1]);
                assert(is_digit(t[k - 1]));
            }
        }
    } else {
        lemma_nat_text(i as nat);
        let t = nat_text(i as nat);
        assert(is_digit(t[0]));
        assert forall|k: int| 0 <= k < int_text(i).len() implies #[trigger] int_text(i)[k]
            != NEWLINE by {
            assert(is_digit(t[k]));
        }
    }
}

/// Reading back the text of a snapshot gives the snapshot.
pub proof fn lemma_snapshot_round_trip(s: Snapshot)
    ensures
        parse_snapshot(snapshot_text(s)) == Some(s),
{
    let a = nat_text(s.score as nat);
    let b = nat_text(s.seed as nat);
    let c = int_text(s.position.0 as int);
    let d = int_text(s.position.1 as int);
    lemma_nat_text(s.score as nat);
    lemma_nat_text(s.seed as nat);
    lemma_int_text_plain(s.position.0 as int);
    lemma_int_text_plain(s.position.1 as int);
    assert forall|k: int| 0 <= k < a.len() implies a[k] != NEWLINE by {
        assert(is_digit(a[k]));
    }
    assert forall|k: int| 0 <= k < b.len() implies b[k] != NEWLINE by {
        assert(is_digit(b[k]));
    }
    lemma_split_plain(a, NEWLINE);
    lemma_split_append(a, b, NEWLINE);
    lemma_split_append(a + seq![NEWLINE] + b, c, NEWLINE);
    lemma_split_append(a + seq![NEWLINE] + b + seq![NEWLINE] + c, d, NEWLINE);
    let ls = split_lines(snapshot_text(s), NEWLINE);
    assert(ls =~= seq![a, b, c, d]);
    assert(parse_nat(a) == Some(s.score as nat));
    assert(parse_nat(b) == Some(s.seed as nat));
    assert(a.len() > 0 && a[0] != MINUS);
    assert(b.len() > 0 && b[0] != MINUS);
}

/// Appends the decimal digits of `n`.
fn push_nat(out: &mut Vec<u8>, n: u64)
    ensures
        final(out)@ == old(out)@ + nat_text(n as nat),
    decreases n,
{
    if n < 10 {
        out.push(ZERO + n as u8);
        proof {
            assert(nat_text(n as nat) =~= seq![(ZERO + n) as u8]);
        }
    } else {
        push_nat(out, n / 10);
        out.push(ZERO + (n % 10) as u8);
        proof {
            assert(nat_text(n as nat) == nat_text((n / 10) as nat).push((ZERO + n % 10) as u8));
        }
    }
}

/// Appends the decimal text of `i`.
fn push_int(out: &mut Vec<u8>, i: i32)
    ensures
        final(out)@ == old(out)@ + int_text(i as int),
{
    if i < 0 {
        out.push(MINUS);
        push_nat(out, (-(i as i64)) as u64);
        proof {
            assert(old(out)@ + int_text(i as int) =~= old(out)@.push(MINUS) + nat_text(
                (-i) as nat,
            ));
        }
    } else {
        push_nat(out, i as u64);
    }
}

impl Snapshot {
    /// The snapshot as text: score, seed, x and y, one per line.
    pub fn encode(&self) -> (t: Vec<u8>)
        ensures
            t@ == snapshot_text(*self),
    {
        let mut out: Vec<u8> = Vec::new();
        push_nat(&mut out, self.score as u64);
        out.push(NEWLINE);
        push_nat(&mut out, self.seed);
        out.push(NEWLINE);
        push_int(&mut out, self.position.0);
        out.push(NEWLINE);
        push_int(&mut out, self.position.1);
        proof {
            assert(out@ =~= snapshot_text(*self));
        }
        out
    }

    /// Reads a snapshot back from its text; `None` when the text is not four
    /// lines of numbers within their fields' ranges.
    pub fn decode(text: &[u8]) -> (r: Option<Snapshot>)
        ensures
            r == parse_snapshot(text@),
    {
        let lines = split(text);
        if lines.len() != 4 {
            return None;
        }
        let score = read_nat(lines[0].as_slice(), usize::MAX as u64);
        let seed = read_nat(lines[1].as_slice(), u64::MAX);
        let x = read_int(lines[2].as_slice());
        let y = read_int(lines[3].as_slice());
        proof {
            assert(lines[0]@ == split_lines(text@, NEWLINE)[0]);
        }
        match (score, seed, x, y) {
            (Some(score), Some(seed), Some(x), Some(y)) => Some(
                Snapshot { score: score as usize, seed, position: Vec2i(x, y) },
            ),
            _ => None,
        }
    }
}

/// The lines of `text`, split at each newline.
fn split(text: &[u8]) -> (ls: Vec<Vec<u8>>)
    ensures
        ls@.len() == split_lines(text@, NEWLINE).len(),
        forall|k: int| 0 <= k < ls@.len() ==> #[trigger] ls@[k]@ == split_lines(text@, NEWLINE)[k],
{
    let mut done: Vec<Vec<u8>> = Vec::new();
    let mut current: Vec<u8> = Vec::new();
    let mut i: usize = 0;
    proof {
        assert(text@.take(0) =~= Seq::<u8>::empty());
    }
    while i < text.len()
        invariant
            i <= text@.len(),
            ({
                let ls = split_lines(text@.take(i as int), NEWLINE);
                &&& ls.len() == done@.len() + 1
                &&& forall|k: int| 0 <= k < done@.len() ==> #[trigger] done@[k]@ == ls[k]
                &&& current@ == ls.last()
            }),
        decreases text@.len() - i,
    {
        let b = text[i];
        proof {
            assert(text@.take(i + 1).drop_last() =~= text@.take(i as int));
            lemma_split_nonempty(text@.take(i as int), NEWLINE);
        }
        if b == NEWLINE {
            done.push(current);
            current = Vec::new();
        } else {
            current.push(b);
        }
        i = i + 1;
    }
    proof {
        assert(text@.take(i as int) =~= text@);
    }
    done.push(current);
    done
}

/// The number that `line` spells, when it is a run of digits no greater
/// than `limit`.
fn read_nat(line: &[u8], limit: u64) -> (r: Option<u64>)
    ensures
        r == (if all_digits(line@) && digits_value(line@) <= limit {
            Some(digits_value(line@) as u64)
        } else {
            None
        }),
{
    if line.len() == 0 {
        return None;
    }
    let mut value: u64 = 0;
    let mut too_big = false;
    let mut i: usize = 0;
    proof {
        assert(line@.take(0) =~= Seq::<u8>::empty());
    }
    while i < line.len()
        invariant
            i <= line@.len(),
            line@.len() > 0,
            forall|k: int| 0 <= k < i ==> is_digit(#[trigger] line@[k]),
            too_big ==> digits_value(line@.take(i as int)) > limit,
            !too_big ==> value == digits_value(line@.take(i as int)) && value <= limit,
        decreases line@.len() - i,
    {
        let b = line[i];
        if !(ZERO <= b && b < ZERO + 10) {
            proof {
                assert(!is_digit(line@[i as int]));
            }
            return None;
        }
        proof {
            assert(line@.take(i + 1).drop_last() =~= line@.take(i as int));
        }
        let d = (b - ZERO) as u64;
        if !too_big {
            if d > limit || value > (limit - d) / 10 {
                too_big = true;
                proof {
                    if d <= limit {
                        assert(value * 10 + d > limit) by (nonlinear_arith)
                            requires
                                value > (limit - d) / 10,
                                d <= limit,
                        ;
                    }
                }
            } else {
                proof {
                    assert(value * 10 + d <= limit) by (nonlinear_arith)
                        requires
                            value <= (limit - d) / 10,
                            d <= limit,
                    ;
                }
                value = value * 10 + d;
            }
        }
        i = i + 1;
    }
    proof {
        assert(line@.take(i as int) =~= line@);
    }
    if too_big {
        None
    } else {
        Some(value)
    }
}

/// The number that `line` spells, when it is a run of digits after an
/// optional minus sign and fits an `i32`.
fn read_int(line: &[u8]) -> (r: Option<i32>)
    ensures
        r == (match parse_int(line@) {
            Some(v) => if i32::MIN <= v <= i32::MAX {
                Some(v as i32)
            } else {
                None
            },
            None => None,
        }),
{
    if line.len() > 0 && line[0] == MINUS {
        let rest = &line[1..line.len()];
        proof {
            assert(rest@ =~= line@.drop_first());
        }
        match read_nat(rest, 0x8000_0000) {
            Some(n) => Some((-(n as i64)) as i32),
            None => None,
        }
    } else {
        match read_nat(line, 0x7fff_ffff) {
            Some(n) => Some(n as i32),
            None => None,
        }
    }
}

} // verus!
