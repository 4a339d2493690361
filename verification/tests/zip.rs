use exr::compression::dwa::zip::{interleave, reconstruct, zip_reconstruct_bytes};

#[test]
fn test_reconstruct() {
    // buf[0] stays, then buf[i] = buf[i-1] + buf[i] - 128
    let mut buf = vec![10u8, 130, 128, 129];
    reconstruct(&mut buf);
    assert_eq!(buf, vec![10, 12, 12, 13]);
}

#[test]
fn test_interleave() {
    // [a, b, c | d, e, f] -> [a, d, b, e, c, f]
    let source = vec![10, 20, 30, 40, 50, 60];
    let mut out = vec![0; 6];
    interleave(&mut out, &source);
    assert_eq!(out, vec![10, 40, 20, 50, 30, 60]);
}

#[test]
fn test_interleave_odd_length() {
    // [a, b, c | d, e] -> [a, d, b, e, c]
    let source = vec![10, 20, 30, 40, 50];
    let mut out = vec![0; 5];
    interleave(&mut out, &source);
    assert_eq!(out, vec![10, 40, 20, 50, 30]);
}

#[test]
fn test_zip_reconstruct_bytes() {
    let mut source = vec![10, 130, 128, 129, 128, 128];
    let mut out = vec![0; 6];
    zip_reconstruct_bytes(&mut out, &mut source);
    // after delta decoding: [10, 12, 12, 13, 13, 13]
    assert_eq!(source, vec![10, 12, 12, 13, 13, 13]);
    assert_eq!(out, vec![10, 13, 12, 13, 12, 13]);
}

#[test]
fn reconstruct_leaves_short_buffers_unchanged() {
    let mut empty: Vec<u8> = vec![];
    reconstruct(&mut empty);
    assert_eq!(empty, Vec::<u8>::new());
    let mut one = vec![200u8];
    reconstruct(&mut one);
    assert_eq!(one, vec![200]);
}

#[test]
fn reconstruct_wraps_around() {
    // 255 + 200 - 128 = 327 = 71 (mod 256); 71 + 0 - 128 = -57 = 199 (mod 256)
    let mut buf = vec![255u8, 200, 0];
    reconstruct(&mut buf);
    assert_eq!(buf, vec![255, 71, 199]);
}

#[test]
fn reconstruct_is_running_sum_mod_256() {
    let stored: Vec<u8> = vec![7, 250, 3, 128, 131, 0, 255, 77, 128];
    let mut buf = stored.clone();
    reconstruct(&mut buf);
    let mut sum: i64 = stored[0] as i64;
    for i in 0..stored.len() {
        if i > 0 {
            sum += stored[i] as i64 - 128;
        }
        assert_eq!(buf[i] as i64, sum.rem_euclid(256));
    }
}

#[test]
fn reconstruct_of_prefix_is_prefix_of_reconstruct() {
    let stored: Vec<u8> = vec![40, 140, 100, 129, 250];
    let mut whole = stored.clone();
    reconstruct(&mut whole);
    for k in 0..=stored.len() {
        let mut part = stored[..k].to_vec();
        reconstruct(&mut part);
        assert_eq!(part, whole[..k].to_vec());
    }
}

#[test]
fn interleave_ignores_bytes_beyond_output() {
    // output of 4 bytes: halves start at 0 and at 2, whatever follows
    let source = vec![1, 2, 3, 4, 99, 98];
    let mut out = vec![0; 4];
    interleave(&mut out, &source);
    assert_eq!(out, vec![1, 3, 2, 4]);
}

#[test]
fn interleave_of_empty_and_single() {
    let mut out: Vec<u8> = vec![];
    interleave(&mut out, &[]);
    assert_eq!(out, Vec::<u8>::new());
    let mut one = vec![0u8];
    interleave(&mut one, &[42]);
    assert_eq!(one, vec![42]);
}

#[test]
fn interleave_takes_every_source_byte_once() {
    for n in 0..12usize {
        let source: Vec<u8> = (0..n as u8).collect();
        let mut out = vec![0u8; n];
        interleave(&mut out, &source);
        let mut sorted = out.clone();
        sorted.sort();
        assert_eq!(sorted, source);
    }
}

#[test]
fn zip_reconstruct_bytes_odd_length() {
    let mut source = vec![1u8, 129, 129, 129, 129];
    let mut out = vec![0u8; 5];
    zip_reconstruct_bytes(&mut out, &mut source);
    assert_eq!(source, vec![1, 2, 3, 4, 5]);
    assert_eq!(out, vec![1, 4, 2, 5, 3]);
}
