use ims_rs::find::{is_image_to_move, pixels_sum, unwrap_two};
use ims_rs::is_apng::{decode, read_uint32, ChunkHeaderData};
use ims_rs::error::Failure;
use ims_rs::utils::{
    filter_images, has_image_extension, input_filter_images, input_get_from_cwd, input_is_cwd,
    ImagePath,
};

fn file(name: &str) -> ImagePath {
    let (stem, ext) = match name.rsplit_once('.') {
        Some((s, e)) if !s.is_empty() => (s.to_string(), Some(e.to_string())),
        _ => (name.to_string(), None),
    };
    ImagePath {
        path: format!("./{name}"),
        file_name: Some(name.to_string()),
        file_stem: Some(stem),
        extension: ext,
    }
}

fn names(v: &Vec<ImagePath>) -> Vec<String> {
    v.iter().map(|p| p.file_name.clone().unwrap()).collect()
}

#[test]
fn images_are_kept_in_order() {
    let mut input: Vec<ImagePath> =
        ["a.png", "b.txt", "c.jpg", "d", "e.jxl", "f.avif", "g.webp", "h.PNG", "i.jpeg", ".png"]
            .iter()
            .map(|n| file(n))
            .collect();
    filter_images(&mut input);
    assert_eq!(names(&input), vec!["a.png", "c.jpg", "e.jxl", "f.avif", "g.webp"]);
    let mut none: Vec<ImagePath> = Vec::new();
    filter_images(&mut none);
    assert!(none.is_empty());
    assert!(has_image_extension(&file("x.avif")));
    assert!(!has_image_extension(&file("x.gif")));
}

#[test]
fn video_input_is_png_jpg_or_webp() {
    let mut input: Vec<ImagePath> =
        ["a.png", "b.jxl", "c.jpg", "d.avif", "e.webp", "f"].iter().map(|n| file(n)).collect();
    input_filter_images(&mut input);
    assert_eq!(names(&input), vec!["a.png", "c.jpg", "e.webp"]);
}

#[test]
fn entries_of_the_directory_replace_the_placeholder() {
    let mut input = vec![file("*"), file("x.png")];
    input_get_from_cwd(&mut input, vec![file("a.png"), file("b.png")]);
    assert_eq!(names(&input), vec!["x.png", "a.png", "b.png"]);
    let mut only = vec![file("*")];
    input_get_from_cwd(&mut only, vec![]);
    assert!(only.is_empty());
}

#[test]
fn placeholder_for_the_directory_is_recognised() {
    let mut star = file("*");
    assert!(input_is_cwd(&vec![star]));
    star = file("*");
    star.path = "*".to_string();
    assert!(!input_is_cwd(&vec![star]));
    assert!(!input_is_cwd(&vec![file("a.png"), file("*")]));
}

#[test]
fn first_present_option_is_taken() {
    assert_eq!(unwrap_two(Some(1), Some(2)), 1);
    assert_eq!(unwrap_two(Some(1), None), 1);
    assert_eq!(unwrap_two(None, Some(2)), 2);
    assert_eq!(unwrap_two(Some("a".to_string()), None), "a");
}

#[test]
fn large_images_are_moved() {
    assert!(is_image_to_move((3509, 10), 3508));
    assert!(is_image_to_move((10, 3509), 3508));
    assert!(!is_image_to_move((3508, 3508), 3508));
}

#[test]
fn pixels_are_summed() {
    assert_eq!(pixels_sum(&vec![]), 0);
    assert_eq!(pixels_sum(&vec![255, 255, 1]), 511);
    assert_eq!(pixels_sum(&vec![255u8; 100_000]), 25_500_000);
}

fn chunk(typ: &[u8; 4], data: &[u8]) -> Vec<u8> {
    let mut v = (data.len() as u32).to_be_bytes().to_vec();
    v.extend_from_slice(typ);
    v.extend_from_slice(data);
    v.extend_from_slice(&[0, 0, 0, 0]);
    v
}

fn png(chunks: &[Vec<u8>]) -> Vec<u8> {
    let mut v = b"\x89PNG\r\n\x1a\n".to_vec();
    for c in chunks {
        v.extend_from_slice(c);
    }
    v
}

#[test]
fn animation_is_announced_before_the_image() {
    let ihdr = chunk(b"IHDR", &[0; 13]);
    let frames = |n: u32| {
        let mut d = n.to_be_bytes().to_vec();
        d.extend_from_slice(&[0, 0, 0, 0]);
        chunk(b"acTL", &d)
    };
    let idat = chunk(b"IDAT", &[1, 2, 3]);
    assert_eq!(decode(&png(&[ihdr.clone(), frames(2), idat.clone()])).ok(), Some(true));
    assert_eq!(decode(&png(&[ihdr.clone(), frames(300), idat.clone()])).ok(), Some(true));
    assert_eq!(decode(&png(&[ihdr.clone(), frames(1), idat.clone()])).ok(), Some(false));
    assert_eq!(decode(&png(&[ihdr.clone(), idat.clone(), frames(2)])).ok(), Some(false));
    assert_eq!(decode(&png(&[ihdr.clone(), chunk(b"tEXt", b"hello"), frames(5)])).ok(), Some(true));
}

#[test]
fn files_that_are_no_png_or_end_early_are_rejected() {
    let ihdr = chunk(b"IHDR", &[0; 13]);
    assert!(matches!(decode(&vec![]), Err(Failure::ImageMetadata)));
    assert!(matches!(decode(&b"\x89PNG\r\n\x1a".to_vec()), Err(Failure::ImageMetadata)));
    assert!(matches!(decode(&b"GIF89a..IDAT....".to_vec()), Err(Failure::ImageMetadata)));
    assert!(matches!(decode(&png(&[])), Err(Failure::ImageMetadata)));
    assert!(matches!(decode(&png(&[ihdr.clone()])), Err(Failure::ImageMetadata)));
    let mut cut = png(&[ihdr.clone()]);
    cut.truncate(cut.len() - 1);
    cut.extend_from_slice(&chunk(b"IDAT", &[]));
    assert!(matches!(decode(&cut), Err(Failure::ImageMetadata)));
    let mut actl_cut = png(&[ihdr.clone()]);
    actl_cut.extend_from_slice(&[0, 0, 0, 8]);
    actl_cut.extend_from_slice(b"acTL");
    actl_cut.extend_from_slice(&[0, 0, 0]);
    assert!(matches!(decode(&actl_cut), Err(Failure::ImageMetadata)));
    let huge = png(&[vec![0xFF, 0xFF, 0xFF, 0xFF, b'j', b'u', b'n', b'k']]);
    assert!(matches!(decode(&huge), Err(Failure::ImageMetadata)));
}

#[test]
fn numbers_are_read_most_significant_byte_first() {
    let bytes = vec![0x12, 0x34, 0x56, 0x78, 0xFF, 0xFF, 0xFF, 0xFF, 0x00];
    assert_eq!(read_uint32(&bytes, 0), Some(0x12345678));
    assert_eq!(read_uint32(&bytes, 4), Some(u32::MAX));
    assert_eq!(read_uint32(&bytes, 5), Some(0xFFFFFF00));
    assert_eq!(read_uint32(&bytes, 6), None);
    assert_eq!(read_uint32(&bytes, usize::MAX), None);
    let h = ChunkHeaderData::new(&png(&[chunk(b"IHDR", &[0; 13])]), 8).unwrap();
    assert_eq!(h.length, 13);
    assert_eq!(&h.typ, b"IHDR");
    assert!(ChunkHeaderData::new(&bytes, 2).is_none());
}
