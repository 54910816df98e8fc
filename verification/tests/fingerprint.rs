use superdeduper::phash::{LumaGrid, PHash};

fn grid_from(pixels: Vec<u8>) -> LumaGrid {
    LumaGrid::new(pixels).expect("a 32x32 grid has 1024 samples")
}

#[test]
fn fingerprint_is_deterministic() {
    let pixels: Vec<u8> = (0..1024u32).map(|i| (i % 251) as u8).collect();
    let a = PHash::new(&grid_from(pixels.clone()));
    let b = PHash::new(&grid_from(pixels));
    assert_eq!(a.0, b.0);
}

#[test]
fn fingerprint_of_uniform_gray() {
    // every coefficient is zero, so every bit compares 0 >= 0 and is set
    let h = PHash::new(&grid_from(vec![128u8; 1024]));
    assert_eq!(h.0, 0xffff_ffff_ffff_ffff);
}

#[test]
fn fingerprint_of_vertical_edge() {
    // pixel (x, y) sits at index 32*x + y; left half black, right half white
    let mut pixels = Vec::new();
    for x in 0..32u32 {
        for _y in 0..32u32 {
            pixels.push(if x < 16 { 0u8 } else { 255u8 });
        }
    }
    let h = PHash::new(&grid_from(pixels));
    assert_eq!(h.0, 0xfffffefffffffeff);
}

#[test]
fn fingerprint_of_gradient() {
    let mut pixels = Vec::new();
    for _x in 0..32u32 {
        for y in 0..32u32 {
            pixels.push((y * 8) as u8);
        }
    }
    let h = PHash::new(&grid_from(pixels));
    assert_eq!(h.0, 0xffffffffffffff54);
}

#[test]
fn luma_grid_rejects_wrong_size() {
    assert!(LumaGrid::new(vec![0u8; 1023]).is_none());
    assert!(LumaGrid::new(vec![0u8; 1025]).is_none());
    assert!(LumaGrid::new(vec![]).is_none());
    assert!(LumaGrid::new(vec![0u8; 1024]).is_some());
}

#[test]
fn distance_counts_differing_bits() {
    assert_eq!(PHash(0).distance(&PHash(0x7)), 3);
    assert_eq!(PHash(0).distance(&PHash(u64::MAX)), 64);
    assert_eq!(PHash(0xff00).distance(&PHash(0x00ff)), 16);
}

#[test]
fn distance_is_symmetric() {
    let a = PHash(0x0123_4567_89ab_cdef);
    let b = PHash(0xfee1_dead_beef_cafe);
    assert_eq!(a.distance(&b), b.distance(&a));
}

#[test]
fn distance_to_self_is_zero() {
    let a = PHash(0xdead_beef_0000_ffff);
    assert_eq!(a.distance(&a), 0);
    assert!(PHash::is_similar(a.distance(&a)));
}

#[test]
fn similarity_threshold_boundary() {
    // distance 7 is similar, distance 8 is not
    let a = PHash(0);
    let b = PHash(0x7f); // 7 bits set
    let c = PHash(0xff); // 8 bits set
    assert_eq!(a.distance(&b), 7);
    assert_eq!(a.distance(&c), 8);
    assert!(PHash::is_similar(a.distance(&b)));
    assert!(!PHash::is_similar(a.distance(&c)));
}

#[test]
fn hex_is_sixteen_lowercase_digits() {
    assert_eq!(PHash(0).hex(), "0000000000000000");
    assert_eq!(PHash(0x0123_4567_89ab_cdef).hex(), "0123456789abcdef");
    assert_eq!(PHash(u64::MAX).hex(), "ffffffffffffffff");
    assert_eq!(PHash(0xff).hex(), "00000000000000ff");
}
