use ims_rs::cmds::{ImageBuffer, Source};
use ims_rs::convert::{
    avifenc_q, backup_name, cjxl_d, cjxl_l, cjxl_tr, encode_and_get_best,
    format_from_extension, get_encode_settings, needs_resize, EncodeCommand, Format, Qualities,
    QualityClass,
};
use ims_rs::error::Failure;
use ims_rs::utils::ImagePath;

fn with_extension(ext: Option<&str>) -> ImagePath {
    ImagePath {
        path: "a".to_string(),
        file_name: Some("a".to_string()),
        file_stem: Some("a".to_string()),
        extension: ext.map(|e| e.to_string()),
    }
}

fn qualities() -> Qualities {
    Qualities {
        avif_normal: 14,
        avif_low: 21,
        cjxl_hi: "1".to_string(),
        cjxl_normal: "1.125".to_string(),
        cjxl_low: "2".to_string(),
    }
}

fn command(cmd: &str, ext: &str, tolerance: i32) -> EncodeCommand {
    (cmd.to_string(), ext.to_string(), false, tolerance)
}

fn result(ext: &str, size: usize) -> ImageBuffer {
    let mut b = ImageBuffer::new("enc", ext, false);
    b.image = vec![0u8; size];
    b
}

#[test]
fn commands_are_written_with_their_numbers() {
    assert_eq!(cjxl_l(9), "cjxl -d 0 -j 0 -e 9 --patches=0");
    assert_eq!(cjxl_l(-3), "cjxl -d 0 -j 0 -e -3 --patches=0");
    assert_eq!(cjxl_l(i8::MIN), format!("cjxl -d 0 -j 0 -e {} --patches=0", i8::MIN));
    assert_eq!(cjxl_tr(7), "cjxl -d 0 -j 1 -m 0 -e 7");
    assert_eq!(cjxl_d("1.125"), "cjxl -d 1.125 -j 0 -e 7 --patches=0");
    assert_eq!(
        avifenc_q(14),
        "avifenc --min 0 --max 63 -d 10 -s 4 -j 8 -a end-usage=q -a cq-level=14 \
         -a color:enable-chroma-deltaq=1 -a color:deltaq-mode=3 -a tune=ssim"
    );
    assert_eq!(avifenc_q(i8::MAX), format!("avifenc --min 0 --max 63 -d 10 -s 4 -j 8 -a end-usage=q -a cq-level={} -a color:enable-chroma-deltaq=1 -a color:deltaq-mode=3 -a tune=ssim", i8::MAX));
}

#[test]
fn format_is_told_from_the_extension_without_regard_to_case() {
    assert_eq!(Format::from_file_format(&with_extension(Some("png"))), Some(Format::Png));
    assert_eq!(Format::from_file_format(&with_extension(Some("PNG"))), Some(Format::Png));
    assert_eq!(Format::from_file_format(&with_extension(Some("Jpg"))), Some(Format::Jpeg));
    assert_eq!(Format::from_file_format(&with_extension(Some("JPEG"))), Some(Format::Jpeg));
    assert_eq!(Format::from_file_format(&with_extension(Some("WebP"))), Some(Format::Webp));
    assert_eq!(Format::from_file_format(&with_extension(Some("gif"))), None);
    assert_eq!(Format::from_file_format(&with_extension(Some(""))), None);
    assert_eq!(Format::from_file_format(&with_extension(None)), None);
    assert_eq!(format_from_extension("PNG"), None);
    assert_eq!(format_from_extension("jpeg"), Some(Format::Jpeg));
}

#[test]
fn formats_have_their_suffix() {
    assert_eq!(Format::Png.as_ext(), ".png");
    assert_eq!(Format::Jpeg.as_ext(), ".jpg");
    assert_eq!(Format::Webp.as_ext(), ".webp");
}

#[test]
fn png_is_encoded_without_loss_first() {
    let q = qualities();
    assert_eq!(
        get_encode_settings(Format::Png, false, QualityClass::Other, &q),
        vec![command(&cjxl_l(9), "jxl", 100), command(&cjxl_d("1"), "jxl", 45)]
    );
    assert_eq!(
        get_encode_settings(Format::Png, true, QualityClass::High, &q),
        vec![command(&cjxl_l(9), "jxl", 100), command(&avifenc_q(14), "avif", 35)]
    );
}

#[test]
fn jpeg_commands_depend_on_the_quality() {
    let q = qualities();
    assert_eq!(
        get_encode_settings(Format::Jpeg, true, QualityClass::High, &q),
        vec![command(&cjxl_tr(7), "jxl", 100), command(&avifenc_q(14), "avif", 42)]
    );
    assert_eq!(
        get_encode_settings(Format::Jpeg, false, QualityClass::High, &q),
        vec![
            command(&cjxl_tr(7), "jxl", 100),
            command(&cjxl_l(9), "jxl", 95),
            command(&cjxl_d("1"), "jxl", 50)
        ]
    );
    for use_avif in [true, false] {
        assert_eq!(
            get_encode_settings(Format::Jpeg, use_avif, QualityClass::Low, &q),
            vec![command(&cjxl_tr(9), "jxl", 100), command(&cjxl_d("2"), "jxl", 30)]
        );
    }
    assert_eq!(
        get_encode_settings(Format::Jpeg, true, QualityClass::Other, &q),
        vec![command(&cjxl_tr(7), "jxl", 100), command(&avifenc_q(21), "avif", 42)]
    );
    assert_eq!(
        get_encode_settings(Format::Jpeg, false, QualityClass::Other, &q),
        vec![
            command(&cjxl_tr(7), "jxl", 100),
            command(&cjxl_l(9), "jxl", 95),
            command(&cjxl_d("1.125"), "jxl", 50)
        ]
    );
}

#[test]
fn best_result_is_the_last_winner() {
    let cmds = vec![command("a", "jxl", 100), command("b", "jxl", 95), command("c", "avif", 50)];
    let buffers = vec![result("jxl", 900), result("jxl", 880), result("avif", 400)];
    let (source, ext) = encode_and_get_best(1000, &cmds, &buffers).unwrap();
    assert_eq!(source, Source::Candidate(2));
    assert_eq!(ext, "avif");
    let buffers = vec![result("jxl", 900), result("jxl", 880), result("avif", 450)];
    let (source, ext) = encode_and_get_best(1000, &cmds, &buffers).unwrap();
    assert_eq!(source, Source::Candidate(0));
    assert_eq!(ext, "jxl");
}

#[test]
fn input_is_the_best_where_nothing_is_smaller() {
    let cmds = vec![command("a", "jxl", 100)];
    let (source, ext) = encode_and_get_best(1000, &cmds, &vec![result("jxl", 1000)]).unwrap();
    assert_eq!(source, Source::Input);
    assert_eq!(ext, "copy");
    let (source, ext) = encode_and_get_best(1000, &vec![], &vec![]).unwrap();
    assert_eq!((source, ext.as_str()), (Source::Input, "copy"));
}

#[test]
fn one_result_for_each_command_is_needed() {
    let cmds = vec![command("a", "jxl", 100)];
    assert!(matches!(encode_and_get_best(1000, &cmds, &vec![]), Err(Failure::Config)));
}

#[test]
fn images_are_scaled_down_only_when_clearly_larger() {
    assert!(needs_resize(3508, 3544, 10, true));
    assert!(!needs_resize(3508, 3543, 3543, true));
    assert!(needs_resize(3508, 10, 5000, true));
    assert!(!needs_resize(3508, 5000, 5000, false));
    assert!(!needs_resize(0, 5000, 5000, true));
    assert!(!needs_resize(u32::MAX, u32::MAX, u32::MAX, true));
}

#[test]
fn backup_keeps_stem_and_extension() {
    let p = ImagePath {
        path: "d/a.b.png".to_string(),
        file_name: Some("a.b.png".to_string()),
        file_stem: Some("a.b".to_string()),
        extension: Some("png".to_string()),
    };
    assert_eq!(backup_name(&p), Some("a.b-bak.png".to_string()));
    assert_eq!(backup_name(&with_extension(None)), None);
}
