use pngcore::{decode, ChannelLayout};

fn channels(color: u8) -> usize {
    match color {
        2 => 3,
        4 => 2,
        6 => 4,
        _ => 1,
    }
}

fn color_type(color: u8) -> png::ColorType {
    match color {
        0 => png::ColorType::Grayscale,
        2 => png::ColorType::Rgb,
        3 => png::ColorType::Indexed,
        4 => png::ColorType::GrayscaleAlpha,
        _ => png::ColorType::Rgba,
    }
}

fn bit_depth(depth: u8) -> png::BitDepth {
    match depth {
        1 => png::BitDepth::One,
        2 => png::BitDepth::Two,
        4 => png::BitDepth::Four,
        8 => png::BitDepth::Eight,
        _ => png::BitDepth::Sixteen,
    }
}

/// Packs samples of `depth` bits into scanlines, most significant bits first.
fn pack(samples: &[Vec<u16>], depth: u8) -> Vec<u8> {
    let mut out = Vec::new();
    for row in samples {
        if depth == 16 {
            for s in row {
                out.extend_from_slice(&s.to_be_bytes());
            }
        } else if depth == 8 {
            out.extend(row.iter().map(|&s| s as u8));
        } else {
            let mut acc = 0u8;
            let mut used = 0u8;
            for &s in row {
                acc |= (s as u8) << (8 - depth - used);
                used += depth;
                if used == 8 {
                    out.push(acc);
                    acc = 0;
                    used = 0;
                }
            }
            if used > 0 {
                out.push(acc);
            }
        }
    }
    out
}

#[test]
fn encoded_images_decode_to_their_samples() {
    let combos: [(u8, &[u8]); 5] = [
        (0, &[1, 2, 4, 8, 16]),
        (2, &[8, 16]),
        (3, &[1, 2, 4, 8]),
        (4, &[8, 16]),
        (6, &[8, 16]),
    ];
    let (w, h) = (5u32, 3u32);
    for (color, depths) in combos.iter() {
        for &depth in depths.iter() {
            let ch = channels(*color);
            let max = if depth == 16 { 65535u32 } else { (1u32 << depth) - 1 };
            let samples: Vec<Vec<u16>> = (0..h)
                .map(|y| (0..w as usize * ch).map(|i| ((i as u32 * 37 + y * 101 + 5) % (max + 1)) as u16).collect())
                .collect();
            let data = pack(&samples, depth);
            let palette: Vec<u8> = (0..(1u32 << depth.min(8))).flat_map(|i| [i as u8, 255 - i as u8, (i * 3) as u8]).collect();
            let mut bytes = Vec::new();
            {
                let mut enc = png::Encoder::new(&mut bytes, w, h);
                enc.set_color(color_type(*color));
                enc.set_depth(bit_depth(depth));
                if *color == 3 {
                    enc.set_palette(palette.clone());
                }
                let mut writer = enc.write_header().unwrap();
                writer.write_image_data(&data).unwrap();
            }
            let img = decode(&bytes).unwrap();
            assert_eq!((img.width, img.height), (w, h));
            let expected: Vec<u8> = samples
                .iter()
                .flatten()
                .flat_map(|&s| {
                    if *color == 3 {
                        palette[s as usize * 3..s as usize * 3 + 3].to_vec()
                    } else if depth == 16 {
                        s.to_be_bytes().to_vec()
                    } else {
                        vec![s as u8]
                    }
                })
                .collect();
            assert_eq!(img.pixels, expected, "color {} depth {}", color, depth);
            let layout = match color {
                0 => ChannelLayout::Gray,
                4 => ChannelLayout::GrayAlpha,
                6 => ChannelLayout::Rgba,
                _ => ChannelLayout::Rgb,
            };
            assert_eq!(img.layout, layout);
            assert_eq!(img.bit_depth, if depth == 16 { 16 } else { 8 });
        }
    }
}
