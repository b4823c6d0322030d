use ims_rs::jpegquality::{jpeg_quality, QualitySums};

fn read_b1(it: &mut std::slice::Iter<u8>, b1: &mut u8) -> Option<()> {
    *b1 = *it.next()?;
    while *b1 != 0xff {
        *b1 = *it.next()?;
    }
    Some(())
}

fn read_b2(it: &mut std::slice::Iter<u8>, b1: &mut u8, b2: &mut u8) -> Option<u32> {
    *b2 = *it.next()?;
    if *b2 == 0xff {
        read_b2(it, b1, b2)?;
    }
    if *b2 == 0x00 {
        read_b1(it, b1)?;
    }
    Some(*b1 as u32 * 256 + *b2 as u32)
}

/// Reads the file byte by byte, as a reader of a stream would.
fn by_stream(bytes: &[u8]) -> Option<QualitySums> {
    let mut it = bytes.iter();
    let mut header = [0u8; 15];
    for h in &mut header {
        *h = *it.next()?;
    }
    if header[0] != 0xFF || header[1] != 0xD8 {
        return None;
    }
    let mut sums: [Option<u32>; 3] = [None; 3];
    loop {
        let mut b1 = 0;
        let mut b2 = 0;
        read_b1(&mut it, &mut b1)?;
        let marker = read_b2(&mut it, &mut b1, &mut b2)?;
        if marker == 0xff00 {
            return Some(QualitySums { first: sums[0], second: sums[1], third: sums[2], combined: false });
        }
        let mut box_len = *it.next()? as usize * 256 + *it.next()? as usize;
        if box_len >= 3 {
            box_len -= 2;
        } else {
            continue;
        }
        if marker != 0xffdb {
            it.nth(box_len - 1);
            continue;
        }
        if box_len % 65 != 0 {
            return None;
        }
        while box_len > 0 {
            let precision = *it.next()?;
            box_len -= 1;
            let index = precision & 0x0f;
            let mut total: u32 = 0;
            let mut total_num = 0;
            while box_len > 0 && total_num < 64 {
                let i = *it.next()?;
                if total_num != 0 {
                    total += i as u32;
                }
                box_len -= 1;
                total_num += 1;
            }
            if index < 3 {
                sums[index as usize] = Some(total);
                for i in (index + 1)..3 {
                    sums[i as usize] = sums[index as usize];
                }
            }
            if index > 0 {
                return Some(QualitySums { first: sums[0], second: sums[1], third: sums[2], combined: true });
            }
        }
    }
}

fn header() -> Vec<u8> {
    let mut v = vec![0xFF, 0xD8];
    v.extend_from_slice(&[1; 13]);
    v
}

fn segment(code: u8, body: &[u8]) -> Vec<u8> {
    let len = body.len() + 2;
    let mut v = vec![0xFF, code, (len / 256) as u8, (len % 256) as u8];
    v.extend_from_slice(body);
    v
}

fn table(index: u8, value: u8) -> Vec<u8> {
    let mut v = vec![index];
    v.extend_from_slice(&[value; 64]);
    v
}

fn file(parts: &[Vec<u8>]) -> Vec<u8> {
    let mut v = header();
    for p in parts {
        v.extend_from_slice(p);
    }
    v
}

fn sums(first: Option<u32>, second: Option<u32>, third: Option<u32>, combined: bool) -> QualitySums {
    QualitySums { first, second, third, combined }
}

#[test]
fn tables_of_luminance_and_chrominance_are_summed() {
    let f = file(&[segment(0xE0, &[0; 5]), segment(0xDB, &table(0, 2)), segment(0xDB, &table(1, 3))]);
    assert_eq!(jpeg_quality(&f).ok(), Some(sums(Some(126), Some(189), Some(189), true)));
    let both = [table(0, 1), table(1, 255)].concat();
    let f = file(&[segment(0xDB, &both), segment(0xDA, &[0; 3])]);
    assert_eq!(jpeg_quality(&f).ok(), Some(sums(Some(63), Some(63 * 255), Some(63 * 255), true)));
    let f = file(&[segment(0xDB, &table(2, 1))]);
    assert_eq!(jpeg_quality(&f).ok(), Some(sums(None, None, Some(63), true)));
    let f = file(&[segment(0xDB, &table(0x15, 1))]);
    assert_eq!(jpeg_quality(&f).ok(), Some(sums(None, None, None, true)));
}

#[test]
fn first_value_of_a_table_is_left_out() {
    let mut t = table(0x10, 0);
    t[1] = 200;
    t[2] = 7;
    t[64] = 9;
    let f = file(&[segment(0xDB, &t), vec![0xFF, 0x00, 0xFF]]);
    assert_eq!(jpeg_quality(&f).ok(), Some(sums(Some(16), Some(16), Some(16), false)));
}

#[test]
fn reading_ends_with_the_code_zero() {
    let f = file(&[segment(0xDB, &table(0, 4)), vec![0xFF, 0x00, 0x12, 0xFF]]);
    assert_eq!(jpeg_quality(&f).ok(), Some(sums(Some(252), Some(252), Some(252), false)));
    // After fill bytes, one more byte FF is looked for each.
    let f = file(&[vec![0xFF, 0xFF, 0xFF, 0x00, 0xFF, 0x01, 0xFF, 0xFF]]);
    assert_eq!(jpeg_quality(&f).ok(), Some(sums(None, None, None, false)));
    let f = file(&[vec![0xFF, 0xFF, 0xFF, 0x00, 0xFF, 0x01, 0xFF]]);
    assert!(jpeg_quality(&f).is_err());
}

#[test]
fn files_that_cannot_be_read_are_rejected() {
    assert!(jpeg_quality(&vec![]).is_err());
    assert!(jpeg_quality(&vec![0xFF, 0xD8, 0, 0]).is_err());
    assert!(jpeg_quality(&header()).is_err());
    let mut png = header();
    png[1] = 0xD9;
    png.extend_from_slice(&[0xFF, 0x00, 0xFF]);
    assert!(jpeg_quality(&png).is_err());
    // A segment of tables that the tables do not fill.
    assert!(jpeg_quality(&file(&[segment(0xDB, &[0; 64])])).is_err());
    // A table that is cut off.
    let mut cut = file(&[segment(0xDB, &table(0, 1))]);
    cut.pop();
    assert!(jpeg_quality(&cut).is_err());
    // A segment that reaches the end of the file.
    assert!(jpeg_quality(&file(&[segment(0xE0, &[0; 5])])).is_err());
    // A length that is cut off.
    assert!(jpeg_quality(&file(&[vec![0xFF, 0xE0, 0x00]])).is_err());
}

#[test]
fn short_segments_have_no_body() {
    let f = file(&[vec![0xFF, 0xE0, 0x00, 0x02], segment(0xDB, &table(1, 1))]);
    assert_eq!(jpeg_quality(&f).ok(), Some(sums(None, Some(63), Some(63), true)));
    let f = file(&[vec![0xFF, 0xDB, 0x00, 0x00], vec![0xFF, 0x00, 0xFF]]);
    assert_eq!(jpeg_quality(&f).ok(), Some(sums(None, None, None, false)));
}

#[test]
fn reading_agrees_with_a_reader_of_a_stream() {
    let alphabet = [0xFFu8, 0xFF, 0xDB, 0xDB, 0x00, 0x00, 0x01, 0x02, 0x41, 0x43, 0x82, 0x10, 0x7F];
    let mut x: u64 = 0x2545_F491_4F6C_DD1D;
    let mut next = || {
        x ^= x << 13;
        x ^= x >> 7;
        x ^= x << 17;
        x
    };
    let mut agreed_on_some = 0;
    for round in 0..20_000 {
        let mut f = header();
        let len = (next() % 400) as usize;
        for _ in 0..len {
            let r = next();
            if round % 3 == 0 {
                f.push(alphabet[(r % alphabet.len() as u64) as usize]);
            } else if r % 7 == 0 {
                f.extend_from_slice(&segment(0xDB, &table((r >> 8) as u8 % 4, (r >> 16) as u8)));
            } else if r % 7 == 1 {
                f.extend_from_slice(&[0xFF, 0xDB, 0x00, 0x43]);
            } else {
                f.push(alphabet[(r % alphabet.len() as u64) as usize]);
            }
        }
        let expected = by_stream(&f);
        assert_eq!(jpeg_quality(&f).ok(), expected, "{:?}", f);
        if expected.is_some() {
            agreed_on_some += 1;
        }
    }
    assert!(agreed_on_some > 1000);
}
