use std::rc::Rc;

use platformer_core::texture::CpuTexture;
use platformer_core::tiles::{Tile, Tilemap, Tileset, TILE_SZ};
use platformer_core::types::{Rect, Vec2i};

const EMPTY: Tile = Tile { solid: false, triangle: false };
const SOLID: Tile = Tile { solid: true, triangle: false };
const SPIKE: Tile = Tile { solid: false, triangle: true };

fn tileset() -> Rc<Tileset> {
    // a 32x32 texture: two tiles per row
    let tex = Rc::new(CpuTexture::from_premultiplied(vec![0; 32 * 32 * 4], 32, 32));
    Rc::new(Tileset::new(vec![EMPTY, SOLID, SPIKE], &tex))
}

fn map() -> Tilemap {
    // 3 columns, 2 rows, placed at (100, 50)
    Tilemap::new(Vec2i(100, 50), (3, 2), &tileset(), vec![0, 1, 2, 2, 1, 0])
}

#[test]
fn tilemap_reports_its_size() {
    assert_eq!(map().size(), (3, 2));
    assert_eq!(TILE_SZ, 16);
}

#[test]
fn contains_is_strict() {
    let m = map();
    assert!(m.contains(Vec2i(101, 51)));
    assert!(m.contains(Vec2i(147, 81)));
    assert!(!m.contains(Vec2i(100, 60)));
    assert!(!m.contains(Vec2i(120, 50)));
    assert!(!m.contains(Vec2i(148, 60)));
    assert!(!m.contains(Vec2i(120, 82)));
}

#[test]
fn tile_lookup_is_row_major() {
    let m = map();
    assert_eq!(m.tile_id_at(Vec2i(100, 50)).get(), 0);
    assert_eq!(m.tile_id_at(Vec2i(117, 50)).get(), 1);
    assert_eq!(m.tile_id_at(Vec2i(147, 65)).get(), 2);
    assert_eq!(m.tile_id_at(Vec2i(100, 66)).get(), 2);
    assert_eq!(m.tile_id_at(Vec2i(120, 81)).get(), 1);
    assert_eq!(m.tile_at(Vec2i(120, 81)), SOLID);
    assert_eq!(m.tile_at(Vec2i(140, 55)), SPIKE);
    assert_eq!(m.tile_at(Vec2i(140, 70)), EMPTY);
}

#[test]
fn tile_rect_is_the_containing_tile() {
    let m = map();
    assert_eq!(m.get_tile_rect(Vec2i(120, 81)), Rect { x: 116, y: 66, w: 16, h: 16 });
    assert_eq!(m.get_tile_rect(Vec2i(100, 50)), Rect { x: 100, y: 50, w: 16, h: 16 });
}

#[test]
fn tileset_rect_follows_texture_grid() {
    let ts = tileset();
    let m = map();
    let id = m.tile_id_at(Vec2i(140, 55));
    assert!(ts.contains(id));
    assert_eq!(ts.get_rect(id), Rect { x: 0, y: 16, w: 16, h: 16 });
    let id1 = m.tile_id_at(Vec2i(117, 50));
    assert_eq!(ts.get_rect(id1), Rect { x: 16, y: 0, w: 16, h: 16 });
    assert_eq!(ts.tile(id1), SOLID);
}

#[test]
fn draw_lists_visible_tiles() {
    let m = map();
    // sees columns 1..3 of row 0 only
    let blits = m.draw(Rect { x: 116, y: 40, w: 40, h: 30 });
    assert_eq!(
        blits,
        vec![
            (Rect { x: 16, y: 0, w: 16, h: 16 }, Vec2i(116, 50)),
            (Rect { x: 0, y: 16, w: 16, h: 16 }, Vec2i(132, 50)),
        ]
    );
    let all = m.draw(Rect { x: 0, y: 0, w: 500, h: 500 });
    assert_eq!(all.len(), 6);
    assert_eq!(all[3].1, Vec2i(100, 66));
    let none = m.draw(Rect { x: 0, y: 0, w: 10, h: 10 });
    assert!(none.is_empty());
}

#[test]
fn texture_accessors() {
    let tex = CpuTexture::from_premultiplied(vec![7; 5 * 3 * 4], 5, 3);
    assert_eq!(tex.size(), (5, 3));
    assert_eq!(tex.depth(), 4);
    assert_eq!(tex.pitch(), 20);
    assert_eq!(tex.buffer().len(), 60);
    assert!(tex.valid_frame(Rect { x: 0, y: 0, w: 5, h: 3 }));
    assert!(tex.valid_frame(Rect { x: 2, y: 1, w: 3, h: 2 }));
    assert!(!tex.valid_frame(Rect { x: 3, y: 0, w: 3, h: 1 }));
    assert!(!tex.valid_frame(Rect { x: -1, y: 0, w: 1, h: 1 }));
    assert!(!tex.valid_frame(Rect { x: 0, y: 1, w: 1, h: 3 }));
}
