use etag::firmware::qr::{rs_divisor, rs_remainder, Gf, QrCode};

#[test]
fn gf_mul_zero() {
    let gf = Gf::new();
    assert_eq!(gf.mul(0, 255), 0);
    assert_eq!(gf.mul(1, 0), 0);
}

#[test]
fn gf_mul_one() {
    let gf = Gf::new();
    for x in 1u8..=255 {
        assert_eq!(gf.mul(x, 1), x, "x * 1 != x for x={x}");
    }
}

#[test]
fn gf_mul_two_matches_shift_xor() {
    let gf = Gf::new();
    for x in 1u8..=255 {
        let expected = if x & 0x80 != 0 {
            ((x as u16) << 1 ^ 0x11D) as u8
        } else {
            x << 1
        };
        assert_eq!(gf.mul(x, 2), expected, "gf_mul({x}, 2)");
    }
}

#[test]
fn version_selection() {
    assert_eq!(QrCode::select_version(0), Some(1));
    assert_eq!(QrCode::select_version(14), Some(1));
    assert_eq!(QrCode::select_version(15), Some(2));
    assert_eq!(QrCode::select_version(26), Some(2));
    assert_eq!(QrCode::select_version(84), Some(5));
    assert_eq!(QrCode::select_version(85), None);
}

#[test]
fn encode_grocycode() {
    let qr = QrCode::encode(b"grcy-p-1").expect("encode failed");
    assert_eq!(qr.version(), 1);
    assert_eq!(qr.size(), 21);
}

#[test]
fn encode_url() {
    let qr = QrCode::encode(b"http://grocy.local/api/stock/5").expect("encode failed");
    assert!(qr.version() >= 2);
    assert_eq!(qr.size(), (17 + 4 * qr.version()) as usize);
}

#[test]
fn module_bounds() {
    let qr = QrCode::encode(b"test").unwrap();
    let s = qr.size();
    let _ = qr.module(0, 0);
    let _ = qr.module(s - 1, s - 1);
}

#[test]
fn finder_top_left_corner_is_dark() {
    let qr = QrCode::encode(b"hello").unwrap();
    assert!(qr.module(0, 0));
}

#[test]
fn encode_rejects_payload_over_84_bytes() {
    assert!(QrCode::encode(&[b'a'; 85]).is_none());
    assert!(QrCode::encode(&[b'a'; 84]).is_some());
}

#[test]
fn encode_picks_smallest_version_for_each_capacity() {
    let cases: [(usize, u8); 10] = [
        (0, 1),
        (14, 1),
        (15, 2),
        (26, 2),
        (27, 3),
        (42, 3),
        (43, 4),
        (62, 4),
        (63, 5),
        (84, 5),
    ];
    for (len, version) in cases {
        let data = vec![b'x'; len];
        let qr = QrCode::encode(&data).unwrap();
        assert_eq!(qr.version(), version, "payload of {len} bytes");
        assert_eq!(qr.size(), 17 + 4 * version as usize);
    }
}

#[test]
fn finder_patterns_survive_masking() {
    for payload in [&b"grcy-p-42"[..], &b"http://grocy.local/api/stock/5"[..], &[0xffu8; 70][..]] {
        let qr = QrCode::encode(payload).unwrap();
        let s = qr.size();
        // The three finder patterns: dark 7×7 outline with a dark 3×3 centre.
        for (top, left) in [(0usize, 0usize), (0, s - 7), (s - 7, 0)] {
            for r in 0..7 {
                for c in 0..7 {
                    let dark = r == 0 || r == 6 || c == 0 || c == 6
                        || ((2..=4).contains(&r) && (2..=4).contains(&c));
                    assert_eq!(qr.module(top + r, left + c), dark);
                }
            }
        }
        // Light separators one module wide around each finder.
        for k in 0..8 {
            assert!(!qr.module(7, k));
            assert!(!qr.module(k, 7));
            assert!(!qr.module(7, s - 1 - k));
            assert!(!qr.module(k, s - 8));
            assert!(!qr.module(s - 8, k));
            assert!(!qr.module(s - 1 - k, 7));
        }
        // The dark module.
        assert!(qr.module(4 * qr.version() as usize + 9, 8));
        // Timing pattern along row 6 between the finders alternates.
        for c in 8..s - 8 {
            assert_eq!(qr.module(6, c), c % 2 == 0);
        }
    }
}

#[test]
fn separators_and_dark_module_for_many_payloads() {
    for len in 1..=84usize {
        for seed in [0u8, 0x5a, 0xff] {
            let data: Vec<u8> = (0..len).map(|i| (i as u8).wrapping_mul(31) ^ seed).collect();
            let qr = QrCode::encode(&data).unwrap();
            let s = qr.size();
            assert!(qr.module(s - 8, 8), "dark module, payload of {len} bytes");
            for k in 0..8 {
                assert!(!qr.module(k, s - 8));
                assert!(!qr.module(s - 8, k));
            }
        }
    }
}

#[test]
fn encoding_is_deterministic() {
    let a = QrCode::encode(b"grcy-p-123").unwrap();
    let b = QrCode::encode(b"grcy-p-123").unwrap();
    for r in 0..a.size() {
        for c in 0..a.size() {
            assert_eq!(a.module(r, c), b.module(r, c));
        }
    }
}

#[test]
fn gf_mul_matches_known_products() {
    let gf = Gf::new();
    // α^8 = 0x1D for the polynomial 0x11D; 0x80 · 2 = α^8.
    assert_eq!(gf.mul(0x80, 2), 0x1D);
    assert_eq!(gf.mul(3, 7), 9);
    assert_eq!(gf.mul(0x53, 0xCA), gf.mul(0xCA, 0x53));
}

#[test]
fn gf_mul_field_laws_on_samples() {
    let gf = Gf::new();
    let samples = [0u8, 1, 2, 3, 7, 0x1d, 0x53, 0x80, 0xca, 0xff];
    for &a in &samples {
        for &b in &samples {
            assert_eq!(gf.mul(a, b), gf.mul(b, a));
            assert_eq!(gf.mul(a, b) == 0, a == 0 || b == 0);
            for &c in &samples {
                assert_eq!(gf.mul(gf.mul(a, b), c), gf.mul(a, gf.mul(b, c)));
                assert_eq!(gf.mul(a, b ^ c), gf.mul(a, b) ^ gf.mul(a, c));
            }
        }
    }
}

#[test]
fn message_with_remainder_divides_by_generator() {
    let gf = Gf::new();
    for degree in [7usize, 10, 15, 16, 18, 26] {
        let mut g = vec![0u8; degree];
        rs_divisor(degree, &gf, &mut g);
        let data: Vec<u8> = (0..19u8).map(|i| i.wrapping_mul(37) ^ 0x5a).collect();
        let mut rem = vec![0u8; degree];
        rs_remainder(&data, &g, &gf, &mut rem);
        assert!(rem.iter().any(|&b| b != 0));
        let mut codeword = data.clone();
        codeword.extend_from_slice(&rem);
        let mut again = vec![0xffu8; degree];
        rs_remainder(&codeword, &g, &gf, &mut again);
        assert_eq!(again, vec![0u8; degree]);
    }
}

#[test]
fn reed_solomon_buffers_are_cleared_past_the_degree() {
    let gf = Gf::new();
    let mut g = vec![7u8; 12];
    rs_divisor(7, &gf, &mut g);
    assert_eq!(&g[7..], &[0u8; 5]);
    let mut exact = vec![0u8; 7];
    rs_divisor(7, &gf, &mut exact);
    assert_eq!(&g[..7], &exact[..]);

    let mut rem = vec![9u8; 10];
    rs_remainder(b"grcy", &g[..7], &gf, &mut rem);
    assert_eq!(&rem[7..], &[0u8; 3]);
    let mut rem_exact = vec![0u8; 7];
    rs_remainder(b"grcy", &g[..7], &gf, &mut rem_exact);
    assert_eq!(&rem[..7], &rem_exact[..]);

    let mut empty_input = vec![5u8; 4];
    rs_remainder(&[], &g[..7], &gf, &mut empty_input);
    assert_eq!(empty_input, vec![0u8; 4]);
}

#[test]
fn generator_of_high_degree_still_divides() {
    let gf = Gf::new();
    let degree = 300usize;
    let mut g = vec![0u8; degree];
    rs_divisor(degree, &gf, &mut g);
    let data: Vec<u8> = (0..40u8).map(|i| i.wrapping_mul(91) ^ 0x33).collect();
    let mut rem = vec![0u8; degree];
    rs_remainder(&data, &g, &gf, &mut rem);
    let mut codeword = data.clone();
    codeword.extend_from_slice(&rem);
    let mut again = vec![1u8; degree];
    rs_remainder(&codeword, &g, &gf, &mut again);
    assert_eq!(again, vec![0u8; degree]);
}
