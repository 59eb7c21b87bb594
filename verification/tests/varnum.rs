use binjs_io::bytes::varnum::{
    read_varnum, write_varnum, VARNUM_INVALID_ZERO_1, VARNUM_INVALID_ZERO_2,
};

fn encode(num: u32) -> Vec<u8> {
    let mut out = Vec::new();
    let written = write_varnum(&mut out, num);
    assert_eq!(written, out.len());
    out
}

#[test]
fn varnum_exact_bytes() {
    assert_eq!(encode(0), vec![0]);
    assert_eq!(encode(1), vec![2]);
    assert_eq!(encode(10), vec![20]);
    assert_eq!(encode(127), vec![254]);
    assert_eq!(encode(128), vec![1, 2]);
    assert_eq!(encode(129), vec![3, 2]);
    assert_eq!(encode(16383), vec![255, 254]);
    assert_eq!(encode(16384), vec![1, 1, 2]);
    assert_eq!(encode(u32::MAX), vec![255, 255, 255, 255, 30]);
}

#[test]
fn varnum_lengths() {
    assert_eq!(encode(0).len(), 1);
    assert_eq!(encode(127).len(), 1);
    assert_eq!(encode(128).len(), 2);
    assert_eq!(encode((1 << 14) - 1).len(), 2);
    assert_eq!(encode(1 << 14).len(), 3);
    assert_eq!(encode((1 << 21) - 1).len(), 3);
    assert_eq!(encode(1 << 21).len(), 4);
    assert_eq!(encode((1 << 28) - 1).len(), 4);
    assert_eq!(encode(1 << 28).len(), 5);
    assert_eq!(encode(u32::MAX).len(), 5);
}

#[test]
fn write_varnum_appends() {
    let mut out = vec![9, 9, 9];
    assert_eq!(write_varnum(&mut out, 300), 2);
    assert_eq!(out, vec![9, 9, 9, 89, 4]);
    assert_eq!(write_varnum(&mut out, 0), 1);
    assert_eq!(out, vec![9, 9, 9, 89, 4, 0]);
}

#[test]
fn read_varnum_inverts_write_varnum() {
    let mut samples: Vec<u32> = (0..1000).collect();
    let mut state: u32 = 0x1234_5678;
    for _ in 0..5000 {
        state = state.wrapping_mul(1664525).wrapping_add(1013904223);
        samples.push(state);
        samples.push(state >> (state % 32));
    }
    samples.extend_from_slice(&[u32::MAX, u32::MAX - 1, 1 << 31, (1 << 28) - 1, 1 << 28]);
    for num in samples {
        let mut bytes = encode(num);
        let len = bytes.len();
        assert_eq!(read_varnum(&bytes), Some((num, len)));
        bytes.extend_from_slice(&[1, 0, 255]);
        assert_eq!(read_varnum(&bytes), Some((num, len)));
    }
}

#[test]
fn read_varnum_rejects_what_is_no_encoding() {
    assert_eq!(read_varnum(&[]), None);
    assert_eq!(read_varnum(&[1]), None);
    assert_eq!(read_varnum(&[255, 255]), None);
    assert_eq!(read_varnum(&VARNUM_INVALID_ZERO_1), None);
    assert_eq!(read_varnum(&VARNUM_INVALID_ZERO_2), None);
    assert_eq!(read_varnum(&[1, 1, 1, 0]), None);
    assert_eq!(read_varnum(&[255, 255, 255, 255, 32]), None);
    assert_eq!(read_varnum(&[255, 255, 255, 255, 255, 2]), None);
    assert_eq!(read_varnum(&[1, 1, 1, 1, 1, 2]), None);
}

#[test]
fn reserved_sequences_start_no_encoding() {
    assert_eq!(VARNUM_INVALID_ZERO_1, [1, 0]);
    assert_eq!(VARNUM_INVALID_ZERO_2, [1, 1, 0]);
    let mut state: u32 = 0xCAFE_F00D;
    let mut samples: Vec<u32> = (0..70000).collect();
    for _ in 0..20000 {
        state = state.wrapping_mul(1664525).wrapping_add(1013904223);
        samples.push(state);
    }
    for num in samples {
        let bytes = encode(num);
        assert!(!bytes.starts_with(&VARNUM_INVALID_ZERO_1));
        assert!(!bytes.starts_with(&VARNUM_INVALID_ZERO_2));
    }
}
