//! Runs bitmap operations on pseudo-random inputs and compares them with
//! straightforward implementations of the same algorithms over plain vectors.

use ruffle::bitmap_data::BitmapData;
use ruffle::color::Color;
use ruffle::h263_gather::gather;
use ruffle::h263_types::{DecodedPicture, HalfPel, MacroblockType, MotionVector};

struct Rand(u64);

impl Rand {
    fn next(&mut self) -> u32 {
        self.0 = self.0.wrapping_mul(6364136223846793005).wrapping_add(1442695040888963407);
        (self.0 >> 33) as u32
    }
    fn below(&mut self, n: u32) -> u32 {
        self.next() % n
    }
    fn range(&mut self, lo: i32, hi: i32) -> i32 {
        lo + self.below((hi - lo + 1) as u32) as i32
    }
}

fn bitmap(rng: &mut Rand, w: u32, h: u32, palette: &[i32], transparency: bool) -> BitmapData {
    let mut b = BitmapData::default();
    b.init_pixels(w, h, 0, transparency);
    let pixels = (0..w * h).map(|_| Color(palette[rng.below(palette.len() as u32) as usize])).collect();
    b.set_pixels(pixels);
    b
}

fn raw(b: &BitmapData) -> Vec<i32> {
    b.pixels().iter().map(|c| c.0).collect()
}

fn reference_scroll(p: &mut [i32], width: i32, height: i32, x: i32, y: i32) {
    if (x == 0 && y == 0) || x.abs() >= width || y.abs() >= height {
        return;
    }
    let reverse_y = y > 0;
    let reverse_x = y == 0 && x > 0;
    let y_from = if reverse_y { height - y - 1 } else { -y };
    let y_to = if reverse_y { -1 } else { height };
    let dy = if reverse_y { -1 } else { 1 };
    let x_from = if reverse_x { width - x - 1 } else { (-x).max(0) };
    let x_to = if reverse_x { -1 } else { width.min(width - x) };
    let dx = if reverse_x { -1 } else { 1 };
    let mut src_y = y_from;
    while src_y != y_to {
        let mut src_x = x_from;
        while src_x != x_to {
            let color = p[(src_x + src_y * width) as usize];
            p[((src_x + x) + (src_y + y) * width) as usize] = color;
            src_x += dx;
        }
        src_y += dy;
    }
}

#[test]
fn scroll_matches_in_place_copy() {
    let mut rng = Rand(1);
    for _ in 0..300 {
        let w = rng.range(1, 6) as u32;
        let h = rng.range(1, 6) as u32;
        let mut b = bitmap(&mut rng, w, h, &[1, 2, 3, 4, 5, 6, 7], true);
        let mut expected = raw(&b);
        let x = rng.range(-7, 7);
        let y = rng.range(-7, 7);
        reference_scroll(&mut expected, w as i32, h as i32, x, y);
        b.scroll(x, y);
        assert_eq!(raw(&b), expected, "{}x{} by {} {}", w, h, x, y);
    }
}

fn reference_flood_fill(p: &mut [i32], width: u32, height: u32, x: u32, y: u32, replace: i32) {
    let get = |p: &[i32], x: u32, y: u32| -> Option<i32> {
        if x > width || y > height {
            return None;
        }
        p.get((x + y * width) as usize).copied()
    };
    let expected = get(p, x, y).unwrap_or(0);
    let mut pending = vec![(x, y)];
    while let Some((x, y)) = pending.pop() {
        if let Some(old) = get(p, x, y) {
            if old == expected {
                if x > 0 {
                    pending.push((x - 1, y));
                }
                if y > 0 {
                    pending.push((x, y - 1));
                }
                if x < width - 1 {
                    pending.push((x + 1, y));
                }
                if y < height - 1 {
                    pending.push((x, y + 1));
                }
                p[(x + y * width) as usize] = replace;
            }
        }
    }
}

#[test]
fn flood_fill_matches_stack_fill() {
    let mut rng = Rand(2);
    for _ in 0..300 {
        let w = rng.range(1, 7) as u32;
        let h = rng.range(1, 7) as u32;
        let mut b = bitmap(&mut rng, w, h, &[1, 2], true);
        let mut expected = raw(&b);
        let x = rng.below(w + 1);
        let y = rng.below(h + 1);
        reference_flood_fill(&mut expected, w, h, x, y, 9);
        b.flood_fill(x, y, Color(9));
        assert_eq!(raw(&b), expected, "{}x{} from {} {}", w, h, x, y);
    }
}

fn reference_bounds(p: &[i32], width: u32, height: u32, find: bool, mask: i32, color: i32) -> (u32, u32, u32, u32) {
    let (mut min_x, mut max_x, mut min_y, mut max_y) = (None::<i32>, None::<i32>, None::<i32>, None::<i32>);
    for x in 0..width {
        for y in 0..height {
            let px = p[(x + y * width) as usize];
            let hit = if find { (px & mask) == color } else { (px & mask) != color };
            if hit {
                if (x as i32) < min_x.unwrap_or(width as i32) {
                    min_x = Some(x as i32)
                }
                if (x as i32) > max_x.unwrap_or(-1) {
                    max_x = Some(x as i32 + 1)
                }
                if (y as i32) < min_y.unwrap_or(height as i32) {
                    min_y = Some(y as i32)
                }
                if (y as i32) > max_y.unwrap_or(-1) {
                    max_y = Some(y as i32 + 1)
                }
            }
        }
    }
    let (min_x, min_y) = (min_x.unwrap_or(0), min_y.unwrap_or(0));
    let (max_x, max_y) = (max_x.unwrap_or(0), max_y.unwrap_or(0));
    (min_x as u32, min_y as u32, (max_x - min_x) as u32, (max_y - min_y) as u32)
}

#[test]
fn color_bounds_match_scan() {
    let mut rng = Rand(3);
    for _ in 0..300 {
        let w = rng.range(1, 6) as u32;
        let h = rng.range(1, 6) as u32;
        let b = bitmap(&mut rng, w, h, &[0, 0, 0, 0x10, 0x11, 0x21], true);
        let find = rng.below(2) == 0;
        let mask = [0xFF, 0x0F, 0xF0][rng.below(3) as usize];
        let color = [0, 0x10, 0x01][rng.below(3) as usize];
        assert_eq!(b.color_bounds_rect(find, mask, color), reference_bounds(&raw(&b), w, h, find, mask, color));
    }
}

#[test]
fn copy_channel_matches_per_pixel_rewrite() {
    let mut rng = Rand(4);
    for _ in 0..300 {
        let (dw0, dh0) = (rng.range(1, 5) as u32, rng.range(1, 5) as u32);
        let mut dest = bitmap(&mut rng, dw0, dh0, &[0x11223344, -1, 0], true);
        let (sw0, sh0) = (rng.range(1, 5) as u32, rng.range(1, 5) as u32);
        let source = bitmap(&mut rng, sw0, sh0, &[0x55667788, 0x0A0B0C0D], true);
        let channels = [1, 2, 4, 8, 3];
        let sc = channels[rng.below(5) as usize];
        let dc = channels[rng.below(5) as usize];
        let dest_point = (rng.below(4), rng.below(4));
        let x0 = rng.below(4);
        let y0 = rng.below(4);
        let src_rect = (x0, y0, x0 + rng.below(5), y0 + rng.below(5));
        let (dw, dh) = (dest.width(), dest.height());
        let mut expected = raw(&dest);
        for x in src_rect.0..src_rect.2.min(source.width()) {
            for y in src_rect.1..src_rect.3.min(source.height()) {
                let (tx, ty) = (x + dest_point.0, y + dest_point.1);
                if tx < dw && ty < dh {
                    let current = expected[(tx + ty * dw) as usize] as u32;
                    let s = raw(&source)[(x + y * source.width()) as usize] as u32;
                    let shift = match sc {
                        8 => 24,
                        1 => 16,
                        2 => 8,
                        _ => 0,
                    };
                    let part = (s >> shift) & 0xFF;
                    let result = match dc {
                        8 => (current & 0x00FFFFFF) | part << 24,
                        1 => (current & 0xFF00FFFF) | part << 16,
                        2 => (current & 0xFFFF00FF) | part << 8,
                        4 => (current & 0xFFFFFF00) | part,
                        _ => current,
                    };
                    expected[(tx + ty * dw) as usize] = result as i32;
                }
            }
        }
        dest.copy_channel(dest_point, src_rect, &source, sc, dc);
        assert_eq!(raw(&dest), expected);
    }
}

fn reference_sample(plane: &[u8], spr: usize, height: usize, x: isize, y: isize) -> u8 {
    let x = x.clamp(0, spr as isize - 1) as usize;
    let y = y.clamp(0, height as isize - 1) as usize;
    plane[x + y * spr]
}

fn split(v: i16) -> (i16, bool) {
    ((v as i32).div_euclid(2) as i16, v % 2 != 0)
}

fn reference_block(plane: &[u8], spr: usize, pos: (usize, usize), mv: (i16, i16), target: &mut [u8]) {
    let (xd, xi) = split(mv.0);
    let (yd, yi) = split(mv.1);
    let x = pos.0 as isize + xd as isize;
    let y = pos.1 as isize + yd as isize;
    let height = plane.len() / spr;
    for i in 0..8usize {
        if pos.0 + i >= spr {
            continue;
        }
        for j in 0..8usize {
            if pos.1 + j >= height {
                continue;
            }
            let (u, v) = (x + i as isize, y + j as isize);
            let s = |du: isize, dv: isize| reference_sample(plane, spr, height, u + du, v + dv) as u16;
            let value = if !xi && !yi {
                s(0, 0)
            } else if xi && yi {
                (s(0, 0) + s(1, 0) + s(0, 1) + s(1, 1) + 2) / 4
            } else {
                let lerp = |a: u16, b: u16, m: bool| if m { (a + b + 1) / 2 } else { a };
                lerp(lerp(s(0, 0), s(1, 0), xi), lerp(s(0, 1), s(1, 1), xi), yi)
            };
            target[pos.0 + i + (pos.1 + j) * spr] = value as u8;
        }
    }
}

fn chroma_component(sum: i32) -> i16 {
    let a = sum.abs();
    let f = a % 16;
    let r = (a / 16) * 2 + if f < 3 { 0 } else if f < 14 { 1 } else { 2 };
    (if sum < 0 { -r } else { r }) as i16
}

#[test]
fn gather_matches_block_copies() {
    let mut rng = Rand(5);
    for _ in 0..150 {
        let mb_cols = rng.range(1, 3) as usize;
        let mb_rows = rng.range(1, 2) as usize;
        // planes a little larger or smaller than the macroblock grid
        let spr = mb_cols * 16 + rng.below(5) as usize;
        let rows = mb_rows * 16 - rng.below(3) as usize;
        let cspr = (spr + 1) / 2;
        let crows = (rows + 1) / 2;
        let plane = |rng: &mut Rand, n: usize| (0..n).map(|_| rng.below(256) as u8).collect::<Vec<u8>>();
        let reference = DecodedPicture {
            luma: plane(&mut rng, spr * rows),
            chroma_b: plane(&mut rng, cspr * crows),
            chroma_r: plane(&mut rng, cspr * crows),
            luma_samples_per_row: spr,
            chroma_samples_per_row: cspr,
        };
        let n = mb_cols * mb_rows;
        let types: Vec<MacroblockType> = (0..n)
            .map(|_| [MacroblockType::Inter, MacroblockType::Intra, MacroblockType::Inter4V][rng.below(3) as usize])
            .collect();
        let mvs: Vec<[MotionVector; 4]> = (0..n)
            .map(|_| {
                let mut m = [MotionVector(HalfPel(0), HalfPel(0)); 4];
                for v in m.iter_mut() {
                    *v = MotionVector(HalfPel(rng.range(-40, 40) as i16), HalfPel(rng.range(-40, 40) as i16));
                }
                m
            })
            .collect();
        let mut fresh = DecodedPicture {
            luma: vec![0; spr * rows],
            chroma_b: vec![0; cspr * crows],
            chroma_r: vec![0; cspr * crows],
            luma_samples_per_row: spr,
            chroma_samples_per_row: cspr,
        };
        let mut expected = (fresh.luma.clone(), fresh.chroma_b.clone(), fresh.chroma_r.clone());
        for i in 0..n {
            if types[i] == MacroblockType::Intra {
                continue;
            }
            let pos = ((i % mb_cols) * 16, (i / mb_cols) * 16);
            let offsets = [(0, 0), (8, 0), (0, 8), (8, 8)];
            for b in 0..4 {
                let mv = (mvs[i][b].0 .0, mvs[i][b].1 .0);
                reference_block(&reference.luma, spr, (pos.0 + offsets[b].0, pos.1 + offsets[b].1), mv, &mut expected.0);
            }
            let sx: i32 = mvs[i].iter().map(|m| m.0 .0 as i32).sum();
            let sy: i32 = mvs[i].iter().map(|m| m.1 .0 as i32).sum();
            let cmv = (chroma_component(sx), chroma_component(sy));
            let cpos = ((i % mb_cols) * 8, (i / mb_cols) * 8);
            reference_block(&reference.chroma_b, cspr, cpos, cmv, &mut expected.1);
            reference_block(&reference.chroma_r, cspr, cpos, cmv, &mut expected.2);
        }
        gather(&types, Some(&reference), &mvs, mb_cols, &mut fresh).unwrap();
        assert_eq!(fresh.luma, expected.0);
        assert_eq!(fresh.chroma_b, expected.1);
        assert_eq!(fresh.chroma_r, expected.2);
    }
}
