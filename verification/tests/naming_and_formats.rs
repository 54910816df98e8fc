use superdeduper::naming::{extension_str, new_filename, supported_extension, ImageFormat};
use superdeduper::phash::PHash;

#[test]
fn recognizes_supported_extensions() {
    assert_eq!(supported_extension("gif"), Some(ImageFormat::Gif));
    assert_eq!(supported_extension("png"), Some(ImageFormat::Png));
    assert_eq!(supported_extension("png-large"), Some(ImageFormat::Png));
    assert_eq!(supported_extension("jpg"), Some(ImageFormat::Jpeg));
    assert_eq!(supported_extension("jpeg"), Some(ImageFormat::Jpeg));
    assert_eq!(supported_extension("jpe"), Some(ImageFormat::Jpeg));
    assert_eq!(supported_extension("jpg-large"), Some(ImageFormat::Jpeg));
    assert_eq!(supported_extension("webp"), Some(ImageFormat::Webp));
}

#[test]
fn recognition_is_case_insensitive() {
    assert_eq!(supported_extension("GIF"), Some(ImageFormat::Gif));
    assert_eq!(supported_extension("Png"), Some(ImageFormat::Png));
    assert_eq!(supported_extension("JPEG"), Some(ImageFormat::Jpeg));
    assert_eq!(supported_extension("PNG-LARGE"), Some(ImageFormat::Png));
    assert_eq!(supported_extension("WebP"), Some(ImageFormat::Webp));
}

#[test]
fn rejects_unknown_extensions() {
    assert_eq!(supported_extension("txt"), None);
    assert_eq!(supported_extension(""), None);
    assert_eq!(supported_extension("jpg2"), None);
    assert_eq!(supported_extension("gi"), None);
    assert_eq!(supported_extension("pngx"), None);
}

#[test]
fn canonical_extensions() {
    assert_eq!(extension_str(ImageFormat::Gif), "gif");
    assert_eq!(extension_str(ImageFormat::Png), "png");
    assert_eq!(extension_str(ImageFormat::Jpeg), "jpg");
    assert_eq!(extension_str(ImageFormat::Webp), "webp");
}

#[test]
fn canonical_member_name_is_bare_hex() {
    let canon = PHash(0x0123_4567_89ab_cdef);
    let name = new_filename(&canon, &canon, 0, Some(ImageFormat::Png));
    assert_eq!(name, "0123456789abcdef.png");
}

#[test]
fn duplicate_name_traces_canon_rank_and_member() {
    let canon = PHash(0x0123_4567_89ab_cdef);
    let member = PHash(0xfee1_dead_beef_cafe);
    let name = new_filename(&canon, &member, 2, Some(ImageFormat::Jpeg));
    assert_eq!(name, "0123456789abcdef-2-fee1deadbeefcafe.jpg");
}

#[test]
fn multi_digit_rank_renders_in_decimal() {
    let canon = PHash(1);
    let member = PHash(2);
    let name = new_filename(&canon, &member, 12, Some(ImageFormat::Gif));
    assert_eq!(name, "0000000000000001-12-0000000000000002.gif");
}

#[test]
fn unrecognized_format_leaves_extension_off() {
    let canon = PHash(0xff);
    let name = new_filename(&canon, &canon, 0, None);
    assert_eq!(name, "00000000000000ff");
}

#[test]
fn different_ranks_never_collide() {
    let canon = PHash(0xaaaa_bbbb_cccc_dddd);
    let member = PHash(0xaaaa_bbbb_cccc_dddd);
    let mut names = Vec::new();
    for rank in 0..25u32 {
        names.push(new_filename(&canon, &member, rank, Some(ImageFormat::Png)));
    }
    for i in 0..names.len() {
        for j in 0..names.len() {
            if i != j {
                assert_ne!(names[i], names[j]);
            }
        }
    }
}
