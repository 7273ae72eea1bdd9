//! Minimal QR-code generator (versions 1–5, byte mode, ECC level M).
use vstd::prelude::*;

verus! {

// ─────────────────────────────────────────────────────────────────────────
// GF(256) arithmetic, primitive polynomial x^8 + x^4 + x^3 + x^2 + 1 (0x11D)
// ─────────────────────────────────────────────────────────────────────────

/// Multiplication by `x` (the generator α = 2) in GF(256) modulo 0x11D.
pub open spec fn xtime(a: u8) -> u8 {
    if a & 0x80u8 == 0 {
        a << 1u8
    } else {
        (a << 1u8) ^ 0x1Du8
    }
}

/// Field product: `a · b = Σ_i b_i · (a · x^i)` where `b_i` are the bits of `b`.
pub open spec fn gf_mul(a: u8, b: u8) -> u8 {
    let a1 = xtime(a);
    let a2 = xtime(a1);
    let a3 = xtime(a2);
    let a4 = xtime(a3);
    let a5 = xtime(a4);
    let a6 = xtime(a5);
    let a7 = xtime(a6);
    (if b & 1u8 == 0 { 0u8 } else { a })
    ^ (if b & 2u8 == 0 { 0u8 } else { a1 })
    ^ (if b & 4u8 == 0 { 0u8 } else { a2 })
    ^ (if b & 8u8 == 0 { 0u8 } else { a3 })
    ^ (if b & 16u8 == 0 { 0u8 } else { a4 })
    ^ (if b & 32u8 == 0 { 0u8 } else { a5 })
    ^ (if b & 64u8 == 0 { 0u8 } else { a6 })
    ^ (if b & 128u8 == 0 { 0u8 } else { a7 })
}

/// `α^n` in GF(256).
pub open spec fn alpha_pow(n: nat) -> u8
    decreases n,
{
    if n == 0 {
        1u8
    } else {
        xtime(alpha_pow((n - 1) as nat))
    }
}

proof fn lemma_xtime_linear(x: u8, y: u8)
    ensures
        xtime(x ^ y) == xtime(x) ^ xtime(y),
        xtime(0) == 0,
{
    assert(xtime(x ^ y) == xtime(x) ^ xtime(y)) by (bit_vector);
    assert(xtime(0) == 0) by (bit_vector);
}

/// Multiplying a product by `x` may be folded into the left factor.
pub proof fn lemma_gf_mul_xtime(a: u8, b: u8)
    ensures
        xtime(gf_mul(a, b)) == gf_mul(xtime(a), b),
{
    let a1 = xtime(a);
    let a2 = xtime(a1);
    let a3 = xtime(a2);
    let a4 = xtime(a3);
    let a5 = xtime(a4);
    let a6 = xtime(a5);
    let a7 = xtime(a6);
    let t0 = if b & 1u8 == 0 { 0u8 } else { a };
    let t1 = if b & 2u8 == 0 { 0u8 } else { a1 };
    let t2 = if b & 4u8 == 0 { 0u8 } else { a2 };
    let t3 = if b & 8u8 == 0 { 0u8 } else { a3 };
    let t4 = if b & 16u8 == 0 { 0u8 } else { a4 };
    let t5 = if b & 32u8 == 0 { 0u8 } else { a5 };
    let t6 = if b & 64u8 == 0 { 0u8 } else { a6 };
    let t7 = if b & 128u8 == 0 { 0u8 } else { a7 };
    lemma_xtime_linear(t0, t1);
    lemma_xtime_linear(t0 ^ t1, t2);
    lemma_xtime_linear(t0 ^ t1 ^ t2, t3);
    lemma_xtime_linear(t0 ^ t1 ^ t2 ^ t3, t4);
    lemma_xtime_linear(t0 ^ t1 ^ t2 ^ t3 ^ t4, t5);
    lemma_xtime_linear(t0 ^ t1 ^ t2 ^ t3 ^ t4 ^ t5, t6);
    lemma_xtime_linear(t0 ^ t1 ^ t2 ^ t3 ^ t4 ^ t5 ^ t6, t7);
}

/// `α^(i+j) = α^i · α^j`.
pub proof fn lemma_alpha_pow_add(i: nat, j: nat)
    ensures
        alpha_pow(i + j) == gf_mul(alpha_pow(i), alpha_pow(j)),
    decreases i,
{
    if i == 0 {
        let b = alpha_pow(j);
        assert(gf_mul(1u8, b) == b) by (bit_vector);
    } else {
        lemma_alpha_pow_add((i - 1) as nat, j);
        lemma_gf_mul_xtime(alpha_pow((i - 1) as nat), alpha_pow(j));
        assert(alpha_pow(i + j) == xtime(alpha_pow((i - 1 + j) as nat)));
    }
}

/// Whether `x` is one of `α^0 … α^(n-1)`.
pub closed spec fn is_alpha_power_below(x: u8, n: nat) -> bool {
    exists|j: nat| j < n && #[trigger] alpha_pow(j) == x
}

/// Whether `x` is one of `α^0 … α^254`.
pub open spec fn is_alpha_power(x: u8) -> bool {
    is_alpha_power_below(x, 255)
}

/// The powers `α^0 … α^254` run through every non-zero field element, and `α^255 = 1`.
pub proof fn lemma_alpha_generates()
    ensures
        alpha_pow(255) == 1,
        forall|x: u8| x != 0 ==> #[trigger] is_alpha_power(x),
{
    assert(
        xtime(1u8) == 2u8 &&
        xtime(2u8) == 4u8 &&
        xtime(4u8) == 8u8 &&
        xtime(8u8) == 16u8 &&
        xtime(16u8) == 32u8 &&
        xtime(32u8) == 64u8 &&
        xtime(64u8) == 128u8 &&
        xtime(128u8) == 29u8 &&
        xtime(29u8) == 58u8 &&
        xtime(58u8) == 116u8 &&
        xtime(116u8) == 232u8 &&
        xtime(232u8) == 205u8 &&
        xtime(205u8) == 135u8 &&
        xtime(135u8) == 19u8 &&
        xtime(19u8) == 38u8 &&
        xtime(38u8) == 76u8 &&
        xtime(76u8) == 152u8 &&
        xtime(152u8) == 45u8 &&
        xtime(45u8) == 90u8 &&
        xtime(90u8) == 180u8 &&
        xtime(180u8) == 117u8 &&
        xtime(117u8) == 234u8 &&
        xtime(234u8) == 201u8 &&
        xtime(201u8) == 143u8 &&
        xtime(143u8) == 3u8 &&
        xtime(3u8) == 6u8 &&
        xtime(6u8) == 12u8 &&
        xtime(12u8) == 24u8 &&
        xtime(24u8) == 48u8 &&
        xtime(48u8) == 96u8 &&
        xtime(96u8) == 192u8 &&
        xtime(192u8) == 157u8 &&
        xtime(157u8) == 39u8 &&
        xtime(39u8) == 78u8 &&
        xtime(78u8) == 156u8 &&
        xtime(156u8) == 37u8 &&
        xtime(37u8) == 74u8 &&
        xtime(74u8) == 148u8 &&
        xtime(148u8) == 53u8 &&
        xtime(53u8) == 106u8 &&
        xtime(106u8) == 212u8 &&
        xtime(212u8) == 181u8 &&
        xtime(181u8) == 119u8 &&
        xtime(119u8) == 238u8 &&
        xtime(238u8) == 193u8 &&
        xtime(193u8) == 159u8 &&
        xtime(159u8) == 35u8 &&
        xtime(35u8) == 70u8 &&
        xtime(70u8) == 140u8 &&
        xtime(140u8) == 5u8 &&
        xtime(5u8) == 10u8 &&
        xtime(10u8) == 20u8 &&
        xtime(20u8) == 40u8 &&
        xtime(40u8) == 80u8 &&
        xtime(80u8) == 160u8 &&
        xtime(160u8) == 93u8 &&
        xtime(93u8) == 186u8 &&
        xtime(186u8) == 105u8 &&
        xtime(105u8) == 210u8 &&
        xtime(210u8) == 185u8 &&
        xtime(185u8) == 111u8 &&
        xtime(111u8) == 222u8 &&
        xtime(222u8) == 161u8 &&
        xtime(161u8) == 95u8 &&
        xtime(95u8) == 190u8 &&
        xtime(190u8) == 97u8 &&
        xtime(97u8) == 194u8 &&
        xtime(194u8) == 153u8 &&
        xtime(153u8) == 47u8 &&
        xtime(47u8) == 94u8 &&
        xtime(94u8) == 188u8 &&
        xtime(188u8) == 101u8 &&
        xtime(101u8) == 202u8 &&
        xtime(202u8) == 137u8 &&
        xtime(137u8) == 15u8 &&
        xtime(15u8) == 30u8 &&
        xtime(30u8) == 60u8 &&
        xtime(60u8) == 120u8 &&
        xtime(120u8) == 240u8 &&
        xtime(240u8) == 253u8 &&
        xtime(253u8) == 231u8 &&
        xtime(231u8) == 211u8 &&
        xtime(211u8) == 187u8 &&
        xtime(187u8) == 107u8 &&
        xtime(107u8) == 214u8 &&
        xtime(214u8) == 177u8 &&
        xtime(177u8) == 127u8 &&
        xtime(127u8) == 254u8 &&
        xtime(254u8) == 225u8 &&
        xtime(225u8) == 223u8 &&
        xtime(223u8) == 163u8 &&
        xtime(163u8) == 91u8 &&
        xtime(91u8) == 182u8 &&
        xtime(182u8) == 113u8 &&
        xtime(113u8) == 226u8 &&
        xtime(226u8) == 217u8 &&
        xtime(217u8) == 175u8 &&
        xtime(175u8) == 67u8 &&
        xtime(67u8) == 134u8 &&
        xtime(134u8) == 17u8 &&
        xtime(17u8) == 34u8 &&
        xtime(34u8) == 68u8 &&
        xtime(68u8) == 136u8 &&
        xtime(136u8) == 13u8 &&
        xtime(13u8) == 26u8 &&
        xtime(26u8) == 52u8 &&
        xtime(52u8) == 104u8 &&
        xtime(104u8) == 208u8 &&
        xtime(208u8) == 189u8 &&
        xtime(189u8) == 103u8 &&
        xtime(103u8) == 206u8 &&
        xtime(206u8) == 129u8 &&
        xtime(129u8) == 31u8 &&
        xtime(31u8) == 62u8 &&
        xtime(62u8) == 124u8 &&
        xtime(124u8) == 248u8 &&
        xtime(248u8) == 237u8 &&
        xtime(237u8) == 199u8 &&
        xtime(199u8) == 147u8 &&
        xtime(147u8) == 59u8 &&
        xtime(59u8) == 118u8 &&
        xtime(118u8) == 236u8 &&
        xtime(236u8) == 197u8 &&
        xtime(197u8) == 151u8 &&
        xtime(151u8) == 51u8 &&
        xtime(51u8) == 102u8 &&
        xtime(102u8) == 204u8 &&
        xtime(204u8) == 133u8 &&
        xtime(133u8) == 23u8 &&
        xtime(23u8) == 46u8 &&
        xtime(46u8) == 92u8 &&
        xtime(92u8) == 184u8 &&
        xtime(184u8) == 109u8 &&
        xtime(109u8) == 218u8 &&
        xtime(218u8) == 169u8 &&
        xtime(169u8) == 79u8 &&
        xtime(79u8) == 158u8 &&
        xtime(158u8) == 33u8 &&
        xtime(33u8) == 66u8 &&
        xtime(66u8) == 132u8 &&
        xtime(132u8) == 21u8 &&
        xtime(21u8) == 42u8 &&
        xtime(42u8) == 84u8 &&
        xtime(84u8) == 168u8 &&
        xtime(168u8) == 77u8 &&
        xtime(77u8) == 154u8 &&
        xtime(154u8) == 41u8 &&
        xtime(41u8) == 82u8 &&
        xtime(82u8) == 164u8 &&
        xtime(164u8) == 85u8 &&
        xtime(85u8) == 170u8 &&
        xtime(170u8) == 73u8 &&
        xtime(73u8) == 146u8 &&
        xtime(146u8) == 57u8 &&
        xtime(57u8) == 114u8 &&
        xtime(114u8) == 228u8 &&
        xtime(228u8) == 213u8 &&
        xtime(213u8) == 183u8 &&
        xtime(183u8) == 115u8 &&
        xtime(115u8) == 230u8 &&
        xtime(230u8) == 209u8 &&
        xtime(209u8) == 191u8 &&
        xtime(191u8) == 99u8 &&
        xtime(99u8) == 198u8 &&
        xtime(198u8) == 145u8 &&
        xtime(145u8) == 63u8 &&
        xtime(63u8) == 126u8 &&
        xtime(126u8) == 252u8 &&
        xtime(252u8) == 229u8 &&
        xtime(229u8) == 215u8 &&
        xtime(215u8) == 179u8 &&
        xtime(179u8) == 123u8 &&
        xtime(123u8) == 246u8 &&
        xtime(246u8) == 241u8 &&
        xtime(241u8) == 255u8 &&
        xtime(255u8) == 227u8 &&
        xtime(227u8) == 219u8 &&
        xtime(219u8) == 171u8 &&
        xtime(171u8) == 75u8 &&
        xtime(75u8) == 150u8 &&
        xtime(150u8) == 49u8 &&
        xtime(49u8) == 98u8 &&
        xtime(98u8) == 196u8 &&
        xtime(196u8) == 149u8 &&
        xtime(149u8) == 55u8 &&
        xtime(55u8) == 110u8 &&
        xtime(110u8) == 220u8 &&
        xtime(220u8) == 165u8 &&
        xtime(165u8) == 87u8 &&
        xtime(87u8) == 174u8 &&
        xtime(174u8) == 65u8 &&
        xtime(65u8) == 130u8 &&
        xtime(130u8) == 25u8 &&
        xtime(25u8) == 50u8 &&
        xtime(50u8) == 100u8 &&
        xtime(100u8) == 200u8 &&
        xtime(200u8) == 141u8 &&
        xtime(141u8) == 7u8 &&
        xtime(7u8) == 14u8 &&
        xtime(14u8) == 28u8 &&
        xtime(28u8) == 56u8 &&
        xtime(56u8) == 112u8 &&
        xtime(112u8) == 224u8 &&
        xtime(224u8) == 221u8 &&
        xtime(221u8) == 167u8 &&
        xtime(167u8) == 83u8 &&
        xtime(83u8) == 166u8 &&
        xtime(166u8) == 81u8 &&
        xtime(81u8) == 162u8 &&
        xtime(162u8) == 89u8 &&
        xtime(89u8) == 178u8 &&
        xtime(178u8) == 121u8 &&
        xtime(121u8) == 242u8 &&
        xtime(242u8) == 249u8 &&
        xtime(249u8) == 239u8 &&
        xtime(239u8) == 195u8 &&
        xtime(195u8) == 155u8 &&
        xtime(155u8) == 43u8 &&
        xtime(43u8) == 86u8 &&
        xtime(86u8) == 172u8 &&
        xtime(172u8) == 69u8 &&
        xtime(69u8) == 138u8 &&
        xtime(138u8) == 9u8 &&
        xtime(9u8) == 18u8 &&
        xtime(18u8) == 36u8 &&
        xtime(36u8) == 72u8 &&
        xtime(72u8) == 144u8 &&
        xtime(144u8) == 61u8 &&
        xtime(61u8) == 122u8 &&
        xtime(122u8) == 244u8 &&
        xtime(244u8) == 245u8 &&
        xtime(245u8) == 247u8 &&
        xtime(247u8) == 243u8 &&
        xtime(243u8) == 251u8 &&
        xtime(251u8) == 235u8 &&
        xtime(235u8) == 203u8 &&
        xtime(203u8) == 139u8 &&
        xtime(139u8) == 11u8 &&
        xtime(11u8) == 22u8 &&
        xtime(22u8) == 44u8 &&
        xtime(44u8) == 88u8 &&
        xtime(88u8) == 176u8 &&
        xtime(176u8) == 125u8 &&
        xtime(125u8) == 250u8 &&
        xtime(250u8) == 233u8 &&
        xtime(233u8) == 207u8 &&
        xtime(207u8) == 131u8 &&
        xtime(131u8) == 27u8 &&
        xtime(27u8) == 54u8 &&
        xtime(54u8) == 108u8 &&
        xtime(108u8) == 216u8 &&
        xtime(216u8) == 173u8 &&
        xtime(173u8) == 71u8 &&
        xtime(71u8) == 142u8 &&
        xtime(142u8) == 1u8
    ) by (bit_vector);
    assert(alpha_pow(0) == 1u8);
    assert(alpha_pow(1) == 2u8);
    assert(alpha_pow(2) == 4u8);
    assert(alpha_pow(3) == 8u8);
    assert(alpha_pow(4) == 16u8);
    assert(alpha_pow(5) == 32u8);
    assert(alpha_pow(6) == 64u8);
    assert(alpha_pow(7) == 128u8);
    assert(alpha_pow(8) == 29u8);
    assert(alpha_pow(9) == 58u8);
    assert(alpha_pow(10) == 116u8);
    assert(alpha_pow(11) == 232u8);
    assert(alpha_pow(12) == 205u8);
    assert(alpha_pow(13) == 135u8);
    assert(alpha_pow(14) == 19u8);
    assert(alpha_pow(15) == 38u8);
    assert(alpha_pow(16) == 76u8);
    assert(alpha_pow(17) == 152u8);
    assert(alpha_pow(18) == 45u8);
    assert(alpha_pow(19) == 90u8);
    assert(alpha_pow(20) == 180u8);
    assert(alpha_pow(21) == 117u8);
    assert(alpha_pow(22) == 234u8);
    assert(alpha_pow(23) == 201u8);
    assert(alpha_pow(24) == 143u8);
    assert(alpha_pow(25) == 3u8);
    assert(alpha_pow(26) == 6u8);
    assert(alpha_pow(27) == 12u8);
    assert(alpha_pow(28) == 24u8);
    assert(alpha_pow(29) == 48u8);
    assert(alpha_pow(30) == 96u8);
    assert(alpha_pow(31) == 192u8);
    assert(alpha_pow(32) == 157u8);
    assert(alpha_pow(33) == 39u8);
    assert(alpha_pow(34) == 78u8);
    assert(alpha_pow(35) == 156u8);
    assert(alpha_pow(36) == 37u8);
    assert(alpha_pow(37) == 74u8);
    assert(alpha_pow(38) == 148u8);
    assert(alpha_pow(39) == 53u8);
    assert(alpha_pow(40) == 106u8);
    assert(alpha_pow(41) == 212u8);
    assert(alpha_pow(42) == 181u8);
    assert(alpha_pow(43) == 119u8);
    assert(alpha_pow(44) == 238u8);
    assert(alpha_pow(45) == 193u8);
    assert(alpha_pow(46) == 159u8);
    assert(alpha_pow(47) == 35u8);
    assert(alpha_pow(48) == 70u8);
    assert(alpha_pow(49) == 140u8);
    assert(alpha_pow(50) == 5u8);
    assert(alpha_pow(51) == 10u8);
    assert(alpha_pow(52) == 20u8);
    assert(alpha_pow(53) == 40u8);
    assert(alpha_pow(54) == 80u8);
    assert(alpha_pow(55) == 160u8);
    assert(alpha_pow(56) == 93u8);
    assert(alpha_pow(57) == 186u8);
    assert(alpha_pow(58) == 105u8);
    assert(alpha_pow(59) == 210u8);
    assert(alpha_pow(60) == 185u8);
    assert(alpha_pow(61) == 111u8);
    assert(alpha_pow(62) == 222u8);
    assert(alpha_pow(63) == 161u8);
    assert(alpha_pow(64) == 95u8);
    assert(alpha_pow(65) == 190u8);
    assert(alpha_pow(66) == 97u8);
    assert(alpha_pow(67) == 194u8);
    assert(alpha_pow(68) == 153u8);
    assert(alpha_pow(69) == 47u8);
    assert(alpha_pow(70) == 94u8);
    assert(alpha_pow(71) == 188u8);
    assert(alpha_pow(72) == 101u8);
    assert(alpha_pow(73) == 202u8);
    assert(alpha_pow(74) == 137u8);
    assert(alpha_pow(75) == 15u8);
    assert(alpha_pow(76) == 30u8);
    assert(alpha_pow(77) == 60u8);
    assert(alpha_pow(78) == 120u8);
    assert(alpha_pow(79) == 240u8);
    assert(alpha_pow(80) == 253u8);
    assert(alpha_pow(81) == 231u8);
    assert(alpha_pow(82) == 211u8);
    assert(alpha_pow(83) == 187u8);
    assert(alpha_pow(84) == 107u8);
    assert(alpha_pow(85) == 214u8);
    assert(alpha_pow(86) == 177u8);
    assert(alpha_pow(87) == 127u8);
    assert(alpha_pow(88) == 254u8);
    assert(alpha_pow(89) == 225u8);
    assert(alpha_pow(90) == 223u8);
    assert(alpha_pow(91) == 163u8);
    assert(alpha_pow(92) == 91u8);
    assert(alpha_pow(93) == 182u8);
    assert(alpha_pow(94) == 113u8);
    assert(alpha_pow(95) == 226u8);
    assert(alpha_pow(96) == 217u8);
    assert(alpha_pow(97) == 175u8);
    assert(alpha_pow(98) == 67u8);
    assert(alpha_pow(99) == 134u8);
    assert(alpha_pow(100) == 17u8);
    assert(alpha_pow(101) == 34u8);
    assert(alpha_pow(102) == 68u8);
    assert(alpha_pow(103) == 136u8);
    assert(alpha_pow(104) == 13u8);
    assert(alpha_pow(105) == 26u8);
    assert(alpha_pow(106) == 52u8);
    assert(alpha_pow(107) == 104u8);
    assert(alpha_pow(108) == 208u8);
    assert(alpha_pow(109) == 189u8);
    assert(alpha_pow(110) == 103u8);
    assert(alpha_pow(111) == 206u8);
    assert(alpha_pow(112) == 129u8);
    assert(alpha_pow(113) == 31u8);
    assert(alpha_pow(114) == 62u8);
    assert(alpha_pow(115) == 124u8);
    assert(alpha_pow(116) == 248u8);
    assert(alpha_pow(117) == 237u8);
    assert(alpha_pow(118) == 199u8);
    assert(alpha_pow(119) == 147u8);
    assert(alpha_pow(120) == 59u8);
    assert(alpha_pow(121) == 118u8);
    assert(alpha_pow(122) == 236u8);
    assert(alpha_pow(123) == 197u8);
    assert(alpha_pow(124) == 151u8);
    assert(alpha_pow(125) == 51u8);
    assert(alpha_pow(126) == 102u8);
    assert(alpha_pow(127) == 204u8);
    assert(alpha_pow(128) == 133u8);
    assert(alpha_pow(129) == 23u8);
    assert(alpha_pow(130) == 46u8);
    assert(alpha_pow(131) == 92u8);
    assert(alpha_pow(132) == 184u8);
    assert(alpha_pow(133) == 109u8);
    assert(alpha_pow(134) == 218u8);
    assert(alpha_pow(135) == 169u8);
    assert(alpha_pow(136) == 79u8);
    assert(alpha_pow(137) == 158u8);
    assert(alpha_pow(138) == 33u8);
    assert(alpha_pow(139) == 66u8);
    assert(alpha_pow(140) == 132u8);
    assert(alpha_pow(141) == 21u8);
    assert(alpha_pow(142) == 42u8);
    assert(alpha_pow(143) == 84u8);
    assert(alpha_pow(144) == 168u8);
    assert(alpha_pow(145) == 77u8);
    assert(alpha_pow(146) == 154u8);
    assert(alpha_pow(147) == 41u8);
    assert(alpha_pow(148) == 82u8);
    assert(alpha_pow(149) == 164u8);
    assert(alpha_pow(150) == 85u8);
    assert(alpha_pow(151) == 170u8);
    assert(alpha_pow(152) == 73u8);
    assert(alpha_pow(153) == 146u8);
    assert(alpha_pow(154) == 57u8);
    assert(alpha_pow(155) == 114u8);
    assert(alpha_pow(156) == 228u8);
    assert(alpha_pow(157) == 213u8);
    assert(alpha_pow(158) == 183u8);
    assert(alpha_pow(159) == 115u8);
    assert(alpha_pow(160) == 230u8);
    assert(alpha_pow(161) == 209u8);
    assert(alpha_pow(162) == 191u8);
    assert(alpha_pow(163) == 99u8);
    assert(alpha_pow(164) == 198u8);
    assert(alpha_pow(165) == 145u8);
    assert(alpha_pow(166) == 63u8);
    assert(alpha_pow(167) == 126u8);
    assert(alpha_pow(168) == 252u8);
    assert(alpha_pow(169) == 229u8);
    assert(alpha_pow(170) == 215u8);
    assert(alpha_pow(171) == 179u8);
    assert(alpha_pow(172) == 123u8);
    assert(alpha_pow(173) == 246u8);
    assert(alpha_pow(174) == 241u8);
    assert(alpha_pow(175) == 255u8);
    assert(alpha_pow(176) == 227u8);
    assert(alpha_pow(177) == 219u8);
    assert(alpha_pow(178) == 171u8);
    assert(alpha_pow(179) == 75u8);
    assert(alpha_pow(180) == 150u8);
    assert(alpha_pow(181) == 49u8);
    assert(alpha_pow(182) == 98u8);
    assert(alpha_pow(183) == 196u8);
    assert(alpha_pow(184) == 149u8);
    assert(alpha_pow(185) == 55u8);
    assert(alpha_pow(186) == 110u8);
    assert(alpha_pow(187) == 220u8);
    assert(alpha_pow(188) == 165u8);
    assert(alpha_pow(189) == 87u8);
    assert(alpha_pow(190) == 174u8);
    assert(alpha_pow(191) == 65u8);
    assert(alpha_pow(192) == 130u8);
    assert(alpha_pow(193) == 25u8);
    assert(alpha_pow(194) == 50u8);
    assert(alpha_pow(195) == 100u8);
    assert(alpha_pow(196) == 200u8);
    assert(alpha_pow(197) == 141u8);
    assert(alpha_pow(198) == 7u8);
    assert(alpha_pow(199) == 14u8);
    assert(alpha_pow(200) == 28u8);
    assert(alpha_pow(201) == 56u8);
    assert(alpha_pow(202) == 112u8);
    assert(alpha_pow(203) == 224u8);
    assert(alpha_pow(204) == 221u8);
    assert(alpha_pow(205) == 167u8);
    assert(alpha_pow(206) == 83u8);
    assert(alpha_pow(207) == 166u8);
    assert(alpha_pow(208) == 81u8);
    assert(alpha_pow(209) == 162u8);
    assert(alpha_pow(210) == 89u8);
    assert(alpha_pow(211) == 178u8);
    assert(alpha_pow(212) == 121u8);
    assert(alpha_pow(213) == 242u8);
    assert(alpha_pow(214) == 249u8);
    assert(alpha_pow(215) == 239u8);
    assert(alpha_pow(216) == 195u8);
    assert(alpha_pow(217) == 155u8);
    assert(alpha_pow(218) == 43u8);
    assert(alpha_pow(219) == 86u8);
    assert(alpha_pow(220) == 172u8);
    assert(alpha_pow(221) == 69u8);
    assert(alpha_pow(222) == 138u8);
    assert(alpha_pow(223) == 9u8);
    assert(alpha_pow(224) == 18u8);
    assert(alpha_pow(225) == 36u8);
    assert(alpha_pow(226) == 72u8);
    assert(alpha_pow(227) == 144u8);
    assert(alpha_pow(228) == 61u8);
    assert(alpha_pow(229) == 122u8);
    assert(alpha_pow(230) == 244u8);
    assert(alpha_pow(231) == 245u8);
    assert(alpha_pow(232) == 247u8);
    assert(alpha_pow(233) == 243u8);
    assert(alpha_pow(234) == 251u8);
    assert(alpha_pow(235) == 235u8);
    assert(alpha_pow(236) == 203u8);
    assert(alpha_pow(237) == 139u8);
    assert(alpha_pow(238) == 11u8);
    assert(alpha_pow(239) == 22u8);
    assert(alpha_pow(240) == 44u8);
    assert(alpha_pow(241) == 88u8);
    assert(alpha_pow(242) == 176u8);
    assert(alpha_pow(243) == 125u8);
    assert(alpha_pow(244) == 250u8);
    assert(alpha_pow(245) == 233u8);
    assert(alpha_pow(246) == 207u8);
    assert(alpha_pow(247) == 131u8);
    assert(alpha_pow(248) == 27u8);
    assert(alpha_pow(249) == 54u8);
    assert(alpha_pow(250) == 108u8);
    assert(alpha_pow(251) == 216u8);
    assert(alpha_pow(252) == 173u8);
    assert(alpha_pow(253) == 71u8);
    assert(alpha_pow(254) == 142u8);
    assert(alpha_pow(255) == 1u8);
    assert forall|x: u8| x != 0 implies #[trigger] is_alpha_power(x) by {
        assert(x == 1u8 || x == 2u8 || x == 4u8 || x == 8u8 || x == 16u8 || x == 32u8 || x == 64u8 || x == 128u8 || x == 29u8 || x == 58u8 || x == 116u8 || x == 232u8 || x == 205u8 || x == 135u8 || x == 19u8 || x == 38u8 || x == 76u8 || x == 152u8 || x == 45u8 || x == 90u8 || x == 180u8 || x == 117u8 || x == 234u8 || x == 201u8 || x == 143u8 || x == 3u8 || x == 6u8 || x == 12u8 || x == 24u8 || x == 48u8 || x == 96u8 || x == 192u8 || x == 157u8 || x == 39u8 || x == 78u8 || x == 156u8 || x == 37u8 || x == 74u8 || x == 148u8 || x == 53u8 || x == 106u8 || x == 212u8 || x == 181u8 || x == 119u8 || x == 238u8 || x == 193u8 || x == 159u8 || x == 35u8 || x == 70u8 || x == 140u8 || x == 5u8 || x == 10u8 || x == 20u8 || x == 40u8 || x == 80u8 || x == 160u8 || x == 93u8 || x == 186u8 || x == 105u8 || x == 210u8 || x == 185u8 || x == 111u8 || x == 222u8 || x == 161u8 || x == 95u8 || x == 190u8 || x == 97u8 || x == 194u8 || x == 153u8 || x == 47u8 || x == 94u8 || x == 188u8 || x == 101u8 || x == 202u8 || x == 137u8 || x == 15u8 || x == 30u8 || x == 60u8 || x == 120u8 || x == 240u8 || x == 253u8 || x == 231u8 || x == 211u8 || x == 187u8 || x == 107u8 || x == 214u8 || x == 177u8 || x == 127u8 || x == 254u8 || x == 225u8 || x == 223u8 || x == 163u8 || x == 91u8 || x == 182u8 || x == 113u8 || x == 226u8 || x == 217u8 || x == 175u8 || x == 67u8 || x == 134u8 || x == 17u8 || x == 34u8 || x == 68u8 || x == 136u8 || x == 13u8 || x == 26u8 || x == 52u8 || x == 104u8 || x == 208u8 || x == 189u8 || x == 103u8 || x == 206u8 || x == 129u8 || x == 31u8 || x == 62u8 || x == 124u8 || x == 248u8 || x == 237u8 || x == 199u8 || x == 147u8 || x == 59u8 || x == 118u8 || x == 236u8 || x == 197u8 || x == 151u8 || x == 51u8 || x == 102u8 || x == 204u8 || x == 133u8 || x == 23u8 || x == 46u8 || x == 92u8 || x == 184u8 || x == 109u8 || x == 218u8 || x == 169u8 || x == 79u8 || x == 158u8 || x == 33u8 || x == 66u8 || x == 132u8 || x == 21u8 || x == 42u8 || x == 84u8 || x == 168u8 || x == 77u8 || x == 154u8 || x == 41u8 || x == 82u8 || x == 164u8 || x == 85u8 || x == 170u8 || x == 73u8 || x == 146u8 || x == 57u8 || x == 114u8 || x == 228u8 || x == 213u8 || x == 183u8 || x == 115u8 || x == 230u8 || x == 209u8 || x == 191u8 || x == 99u8 || x == 198u8 || x == 145u8 || x == 63u8 || x == 126u8 || x == 252u8 || x == 229u8 || x == 215u8 || x == 179u8 || x == 123u8 || x == 246u8 || x == 241u8 || x == 255u8 || x == 227u8 || x == 219u8 || x == 171u8 || x == 75u8 || x == 150u8 || x == 49u8 || x == 98u8 || x == 196u8 || x == 149u8 || x == 55u8 || x == 110u8 || x == 220u8 || x == 165u8 || x == 87u8 || x == 174u8 || x == 65u8 || x == 130u8 || x == 25u8 || x == 50u8 || x == 100u8 || x == 200u8 || x == 141u8 || x == 7u8 || x == 14u8 || x == 28u8 || x == 56u8 || x == 112u8 || x == 224u8 || x == 221u8 || x == 167u8 || x == 83u8 || x == 166u8 || x == 81u8 || x == 162u8 || x == 89u8 || x == 178u8 || x == 121u8 || x == 242u8 || x == 249u8 || x == 239u8 || x == 195u8 || x == 155u8 || x == 43u8 || x == 86u8 || x == 172u8 || x == 69u8 || x == 138u8 || x == 9u8 || x == 18u8 || x == 36u8 || x == 72u8 || x == 144u8 || x == 61u8 || x == 122u8 || x == 244u8 || x == 245u8 || x == 247u8 || x == 243u8 || x == 251u8 || x == 235u8 || x == 203u8 || x == 139u8 || x == 11u8 || x == 22u8 || x == 44u8 || x == 88u8 || x == 176u8 || x == 125u8 || x == 250u8 || x == 233u8 || x == 207u8 || x == 131u8 || x == 27u8 || x == 54u8 || x == 108u8 || x == 216u8 || x == 173u8 || x == 71u8 || x == 142u8) by (bit_vector)
            requires
                x != 0u8,
        ;
        if x == 1u8 { assert(alpha_pow(0) == x); }
        if x == 2u8 { assert(alpha_pow(1) == x); }
        if x == 4u8 { assert(alpha_pow(2) == x); }
        if x == 8u8 { assert(alpha_pow(3) == x); }
        if x == 16u8 { assert(alpha_pow(4) == x); }
        if x == 32u8 { assert(alpha_pow(5) == x); }
        if x == 64u8 { assert(alpha_pow(6) == x); }
        if x == 128u8 { assert(alpha_pow(7) == x); }
        if x == 29u8 { assert(alpha_pow(8) == x); }
        if x == 58u8 { assert(alpha_pow(9) == x); }
        if x == 116u8 { assert(alpha_pow(10) == x); }
        if x == 232u8 { assert(alpha_pow(11) == x); }
        if x == 205u8 { assert(alpha_pow(12) == x); }
        if x == 135u8 { assert(alpha_pow(13) == x); }
        if x == 19u8 { assert(alpha_pow(14) == x); }
        if x == 38u8 { assert(alpha_pow(15) == x); }
        if x == 76u8 { assert(alpha_pow(16) == x); }
        if x == 152u8 { assert(alpha_pow(17) == x); }
        if x == 45u8 { assert(alpha_pow(18) == x); }
        if x == 90u8 { assert(alpha_pow(19) == x); }
        if x == 180u8 { assert(alpha_pow(20) == x); }
        if x == 117u8 { assert(alpha_pow(21) == x); }
        if x == 234u8 { assert(alpha_pow(22) == x); }
        if x == 201u8 { assert(alpha_pow(23) == x); }
        if x == 143u8 { assert(alpha_pow(24) == x); }
        if x == 3u8 { assert(alpha_pow(25) == x); }
        if x == 6u8 { assert(alpha_pow(26) == x); }
        if x == 12u8 { assert(alpha_pow(27) == x); }
        if x == 24u8 { assert(alpha_pow(28) == x); }
        if x == 48u8 { assert(alpha_pow(29) == x); }
        if x == 96u8 { assert(alpha_pow(30) == x); }
        if x == 192u8 { assert(alpha_pow(31) == x); }
        if x == 157u8 { assert(alpha_pow(32) == x); }
        if x == 39u8 { assert(alpha_pow(33) == x); }
        if x == 78u8 { assert(alpha_pow(34) == x); }
        if x == 156u8 { assert(alpha_pow(35) == x); }
        if x == 37u8 { assert(alpha_pow(36) == x); }
        if x == 74u8 { assert(alpha_pow(37) == x); }
        if x == 148u8 { assert(alpha_pow(38) == x); }
        if x == 53u8 { assert(alpha_pow(39) == x); }
        if x == 106u8 { assert(alpha_pow(40) == x); }
        if x == 212u8 { assert(alpha_pow(41) == x); }
        if x == 181u8 { assert(alpha_pow(42) == x); }
        if x == 119u8 { assert(alpha_pow(43) == x); }
        if x == 238u8 { assert(alpha_pow(44) == x); }
        if x == 193u8 { assert(alpha_pow(45) == x); }
        if x == 159u8 { assert(alpha_pow(46) == x); }
        if x == 35u8 { assert(alpha_pow(47) == x); }
        if x == 70u8 { assert(alpha_pow(48) == x); }
        if x == 140u8 { assert(alpha_pow(49) == x); }
        if x == 5u8 { assert(alpha_pow(50) == x); }
        if x == 10u8 { assert(alpha_pow(51) == x); }
        if x == 20u8 { assert(alpha_pow(52) == x); }
        if x == 40u8 { assert(alpha_pow(53) == x); }
        if x == 80u8 { assert(alpha_pow(54) == x); }
        if x == 160u8 { assert(alpha_pow(55) == x); }
        if x == 93u8 { assert(alpha_pow(56) == x); }
        if x == 186u8 { assert(alpha_pow(57) == x); }
        if x == 105u8 { assert(alpha_pow(58) == x); }
        if x == 210u8 { assert(alpha_pow(59) == x); }
        if x == 185u8 { assert(alpha_pow(60) == x); }
        if x == 111u8 { assert(alpha_pow(61) == x); }
        if x == 222u8 { assert(alpha_pow(62) == x); }
        if x == 161u8 { assert(alpha_pow(63) == x); }
        if x == 95u8 { assert(alpha_pow(64) == x); }
        if x == 190u8 { assert(alpha_pow(65) == x); }
        if x == 97u8 { assert(alpha_pow(66) == x); }
        if x == 194u8 { assert(alpha_pow(67) == x); }
        if x == 153u8 { assert(alpha_pow(68) == x); }
        if x == 47u8 { assert(alpha_pow(69) == x); }
        if x == 94u8 { assert(alpha_pow(70) == x); }
        if x == 188u8 { assert(alpha_pow(71) == x); }
        if x == 101u8 { assert(alpha_pow(72) == x); }
        if x == 202u8 { assert(alpha_pow(73) == x); }
        if x == 137u8 { assert(alpha_pow(74) == x); }
        if x == 15u8 { assert(alpha_pow(75) == x); }
        if x == 30u8 { assert(alpha_pow(76) == x); }
        if x == 60u8 { assert(alpha_pow(77) == x); }
        if x == 120u8 { assert(alpha_pow(78) == x); }
        if x == 240u8 { assert(alpha_pow(79) == x); }
        if x == 253u8 { assert(alpha_pow(80) == x); }
        if x == 231u8 { assert(alpha_pow(81) == x); }
        if x == 211u8 { assert(alpha_pow(82) == x); }
        if x == 187u8 { assert(alpha_pow(83) == x); }
        if x == 107u8 { assert(alpha_pow(84) == x); }
        if x == 214u8 { assert(alpha_pow(85) == x); }
        if x == 177u8 { assert(alpha_pow(86) == x); }
        if x == 127u8 { assert(alpha_pow(87) == x); }
        if x == 254u8 { assert(alpha_pow(88) == x); }
        if x == 225u8 { assert(alpha_pow(89) == x); }
        if x == 223u8 { assert(alpha_pow(90) == x); }
        if x == 163u8 { assert(alpha_pow(91) == x); }
        if x == 91u8 { assert(alpha_pow(92) == x); }
        if x == 182u8 { assert(alpha_pow(93) == x); }
        if x == 113u8 { assert(alpha_pow(94) == x); }
        if x == 226u8 { assert(alpha_pow(95) == x); }
        if x == 217u8 { assert(alpha_pow(96) == x); }
        if x == 175u8 { assert(alpha_pow(97) == x); }
        if x == 67u8 { assert(alpha_pow(98) == x); }
        if x == 134u8 { assert(alpha_pow(99) == x); }
        if x == 17u8 { assert(alpha_pow(100) == x); }
        if x == 34u8 { assert(alpha_pow(101) == x); }
        if x == 68u8 { assert(alpha_pow(102) == x); }
        if x == 136u8 { assert(alpha_pow(103) == x); }
        if x == 13u8 { assert(alpha_pow(104) == x); }
        if x == 26u8 { assert(alpha_pow(105) == x); }
        if x == 52u8 { assert(alpha_pow(106) == x); }
        if x == 104u8 { assert(alpha_pow(107) == x); }
        if x == 208u8 { assert(alpha_pow(108) == x); }
        if x == 189u8 { assert(alpha_pow(109) == x); }
        if x == 103u8 { assert(alpha_pow(110) == x); }
        if x == 206u8 { assert(alpha_pow(111) == x); }
        if x == 129u8 { assert(alpha_pow(112) == x); }
        if x == 31u8 { assert(alpha_pow(113) == x); }
        if x == 62u8 { assert(alpha_pow(114) == x); }
        if x == 124u8 { assert(alpha_pow(115) == x); }
        if x == 248u8 { assert(alpha_pow(116) == x); }
        if x == 237u8 { assert(alpha_pow(117) == x); }
        if x == 199u8 { assert(alpha_pow(118) == x); }
        if x == 147u8 { assert(alpha_pow(119) == x); }
        if x == 59u8 { assert(alpha_pow(120) == x); }
        if x == 118u8 { assert(alpha_pow(121) == x); }
        if x == 236u8 { assert(alpha_pow(122) == x); }
        if x == 197u8 { assert(alpha_pow(123) == x); }
        if x == 151u8 { assert(alpha_pow(124) == x); }
        if x == 51u8 { assert(alpha_pow(125) == x); }
        if x == 102u8 { assert(alpha_pow(126) == x); }
        if x == 204u8 { assert(alpha_pow(127) == x); }
        if x == 133u8 { assert(alpha_pow(128) == x); }
        if x == 23u8 { assert(alpha_pow(129) == x); }
        if x == 46u8 { assert(alpha_pow(130) == x); }
        if x == 92u8 { assert(alpha_pow(131) == x); }
        if x == 184u8 { assert(alpha_pow(132) == x); }
        if x == 109u8 { assert(alpha_pow(133) == x); }
        if x == 218u8 { assert(alpha_pow(134) == x); }
        if x == 169u8 { assert(alpha_pow(135) == x); }
        if x == 79u8 { assert(alpha_pow(136) == x); }
        if x == 158u8 { assert(alpha_pow(137) == x); }
        if x == 33u8 { assert(alpha_pow(138) == x); }
        if x == 66u8 { assert(alpha_pow(139) == x); }
        if x == 132u8 { assert(alpha_pow(140) == x); }
        if x == 21u8 { assert(alpha_pow(141) == x); }
        if x == 42u8 { assert(alpha_pow(142) == x); }
        if x == 84u8 { assert(alpha_pow(143) == x); }
        if x == 168u8 { assert(alpha_pow(144) == x); }
        if x == 77u8 { assert(alpha_pow(145) == x); }
        if x == 154u8 { assert(alpha_pow(146) == x); }
        if x == 41u8 { assert(alpha_pow(147) == x); }
        if x == 82u8 { assert(alpha_pow(148) == x); }
        if x == 164u8 { assert(alpha_pow(149) == x); }
        if x == 85u8 { assert(alpha_pow(150) == x); }
        if x == 170u8 { assert(alpha_pow(151) == x); }
        if x == 73u8 { assert(alpha_pow(152) == x); }
        if x == 146u8 { assert(alpha_pow(153) == x); }
        if x == 57u8 { assert(alpha_pow(154) == x); }
        if x == 114u8 { assert(alpha_pow(155) == x); }
        if x == 228u8 { assert(alpha_pow(156) == x); }
        if x == 213u8 { assert(alpha_pow(157) == x); }
        if x == 183u8 { assert(alpha_pow(158) == x); }
        if x == 115u8 { assert(alpha_pow(159) == x); }
        if x == 230u8 { assert(alpha_pow(160) == x); }
        if x == 209u8 { assert(alpha_pow(161) == x); }
        if x == 191u8 { assert(alpha_pow(162) == x); }
        if x == 99u8 { assert(alpha_pow(163) == x); }
        if x == 198u8 { assert(alpha_pow(164) == x); }
        if x == 145u8 { assert(alpha_pow(165) == x); }
        if x == 63u8 { assert(alpha_pow(166) == x); }
        if x == 126u8 { assert(alpha_pow(167) == x); }
        if x == 252u8 { assert(alpha_pow(168) == x); }
        if x == 229u8 { assert(alpha_pow(169) == x); }
        if x == 215u8 { assert(alpha_pow(170) == x); }
        if x == 179u8 { assert(alpha_pow(171) == x); }
        if x == 123u8 { assert(alpha_pow(172) == x); }
        if x == 246u8 { assert(alpha_pow(173) == x); }
        if x == 241u8 { assert(alpha_pow(174) == x); }
        if x == 255u8 { assert(alpha_pow(175) == x); }
        if x == 227u8 { assert(alpha_pow(176) == x); }
        if x == 219u8 { assert(alpha_pow(177) == x); }
        if x == 171u8 { assert(alpha_pow(178) == x); }
        if x == 75u8 { assert(alpha_pow(179) == x); }
        if x == 150u8 { assert(alpha_pow(180) == x); }
        if x == 49u8 { assert(alpha_pow(181) == x); }
        if x == 98u8 { assert(alpha_pow(182) == x); }
        if x == 196u8 { assert(alpha_pow(183) == x); }
        if x == 149u8 { assert(alpha_pow(184) == x); }
        if x == 55u8 { assert(alpha_pow(185) == x); }
        if x == 110u8 { assert(alpha_pow(186) == x); }
        if x == 220u8 { assert(alpha_pow(187) == x); }
        if x == 165u8 { assert(alpha_pow(188) == x); }
        if x == 87u8 { assert(alpha_pow(189) == x); }
        if x == 174u8 { assert(alpha_pow(190) == x); }
        if x == 65u8 { assert(alpha_pow(191) == x); }
        if x == 130u8 { assert(alpha_pow(192) == x); }
        if x == 25u8 { assert(alpha_pow(193) == x); }
        if x == 50u8 { assert(alpha_pow(194) == x); }
        if x == 100u8 { assert(alpha_pow(195) == x); }
        if x == 200u8 { assert(alpha_pow(196) == x); }
        if x == 141u8 { assert(alpha_pow(197) == x); }
        if x == 7u8 { assert(alpha_pow(198) == x); }
        if x == 14u8 { assert(alpha_pow(199) == x); }
        if x == 28u8 { assert(alpha_pow(200) == x); }
        if x == 56u8 { assert(alpha_pow(201) == x); }
        if x == 112u8 { assert(alpha_pow(202) == x); }
        if x == 224u8 { assert(alpha_pow(203) == x); }
        if x == 221u8 { assert(alpha_pow(204) == x); }
        if x == 167u8 { assert(alpha_pow(205) == x); }
        if x == 83u8 { assert(alpha_pow(206) == x); }
        if x == 166u8 { assert(alpha_pow(207) == x); }
        if x == 81u8 { assert(alpha_pow(208) == x); }
        if x == 162u8 { assert(alpha_pow(209) == x); }
        if x == 89u8 { assert(alpha_pow(210) == x); }
        if x == 178u8 { assert(alpha_pow(211) == x); }
        if x == 121u8 { assert(alpha_pow(212) == x); }
        if x == 242u8 { assert(alpha_pow(213) == x); }
        if x == 249u8 { assert(alpha_pow(214) == x); }
        if x == 239u8 { assert(alpha_pow(215) == x); }
        if x == 195u8 { assert(alpha_pow(216) == x); }
        if x == 155u8 { assert(alpha_pow(217) == x); }
        if x == 43u8 { assert(alpha_pow(218) == x); }
        if x == 86u8 { assert(alpha_pow(219) == x); }
        if x == 172u8 { assert(alpha_pow(220) == x); }
        if x == 69u8 { assert(alpha_pow(221) == x); }
        if x == 138u8 { assert(alpha_pow(222) == x); }
        if x == 9u8 { assert(alpha_pow(223) == x); }
        if x == 18u8 { assert(alpha_pow(224) == x); }
        if x == 36u8 { assert(alpha_pow(225) == x); }
        if x == 72u8 { assert(alpha_pow(226) == x); }
        if x == 144u8 { assert(alpha_pow(227) == x); }
        if x == 61u8 { assert(alpha_pow(228) == x); }
        if x == 122u8 { assert(alpha_pow(229) == x); }
        if x == 244u8 { assert(alpha_pow(230) == x); }
        if x == 245u8 { assert(alpha_pow(231) == x); }
        if x == 247u8 { assert(alpha_pow(232) == x); }
        if x == 243u8 { assert(alpha_pow(233) == x); }
        if x == 251u8 { assert(alpha_pow(234) == x); }
        if x == 235u8 { assert(alpha_pow(235) == x); }
        if x == 203u8 { assert(alpha_pow(236) == x); }
        if x == 139u8 { assert(alpha_pow(237) == x); }
        if x == 11u8 { assert(alpha_pow(238) == x); }
        if x == 22u8 { assert(alpha_pow(239) == x); }
        if x == 44u8 { assert(alpha_pow(240) == x); }
        if x == 88u8 { assert(alpha_pow(241) == x); }
        if x == 176u8 { assert(alpha_pow(242) == x); }
        if x == 125u8 { assert(alpha_pow(243) == x); }
        if x == 250u8 { assert(alpha_pow(244) == x); }
        if x == 233u8 { assert(alpha_pow(245) == x); }
        if x == 207u8 { assert(alpha_pow(246) == x); }
        if x == 131u8 { assert(alpha_pow(247) == x); }
        if x == 27u8 { assert(alpha_pow(248) == x); }
        if x == 54u8 { assert(alpha_pow(249) == x); }
        if x == 108u8 { assert(alpha_pow(250) == x); }
        if x == 216u8 { assert(alpha_pow(251) == x); }
        if x == 173u8 { assert(alpha_pow(252) == x); }
        if x == 71u8 { assert(alpha_pow(253) == x); }
        if x == 142u8 { assert(alpha_pow(254) == x); }
    }
}

/// Algebraic identities of the field product.
pub proof fn lemma_gf_mul_identities(a: u8)
    ensures
        gf_mul(a, 0) == 0,
        gf_mul(0, a) == 0,
        gf_mul(a, 1) == a,
        gf_mul(1, a) == a,
        gf_mul(a, 2) == xtime(a),
{
    assert(gf_mul(a, 0) == 0) by (bit_vector);
    assert(gf_mul(0, a) == 0) by (bit_vector);
    assert(gf_mul(a, 1) == a) by (bit_vector);
    assert(gf_mul(1, a) == a) by (bit_vector);
    assert(gf_mul(a, 2) == xtime(a)) by (bit_vector);
}

proof fn lemma_xtime_nonzero(x: u8)
    ensures
        x != 0 ==> xtime(x) != 0,
{
    assert(x != 0 ==> xtime(x) != 0) by (bit_vector);
}

proof fn lemma_alpha_pow_nonzero(n: nat)
    ensures
        alpha_pow(n) != 0,
    decreases n,
{
    if n > 0 {
        lemma_alpha_pow_nonzero((n - 1) as nat);
        lemma_xtime_nonzero(alpha_pow((n - 1) as nat));
    }
}

/// A non-zero element as a power of α.
proof fn lemma_log(x: u8) -> (i: nat)
    requires
        x != 0,
    ensures
        alpha_pow(i) == x,
{
    lemma_alpha_generates();
    assert(is_alpha_power(x));
    choose|j: nat| j < 255 && #[trigger] alpha_pow(j) == x
}

/// The bit-by-bit sum that defines the product is linear in its second factor.
proof fn lemma_bit_sum_linear(
    a0: u8,
    a1: u8,
    a2: u8,
    a3: u8,
    a4: u8,
    a5: u8,
    a6: u8,
    a7: u8,
    b: u8,
    c: u8,
)
    by (bit_vector)
    ensures
        ((if (b ^ c) & 1u8 == 0 { 0u8 } else { a0 }) ^ (if (b ^ c) & 2u8 == 0 { 0u8 } else { a1 })
            ^ (if (b ^ c) & 4u8 == 0 { 0u8 } else { a2 }) ^ (if (b ^ c) & 8u8 == 0 { 0u8 } else {
            a3
        }) ^ (if (b ^ c) & 16u8 == 0 { 0u8 } else { a4 }) ^ (if (b ^ c) & 32u8 == 0 { 0u8 } else {
            a5
        }) ^ (if (b ^ c) & 64u8 == 0 { 0u8 } else { a6 }) ^ (if (b ^ c) & 128u8 == 0 { 0u8 } else {
            a7
        })) == ((if b & 1u8 == 0 { 0u8 } else { a0 }) ^ (if b & 2u8 == 0 { 0u8 } else { a1 }) ^ (
        if b & 4u8 == 0 { 0u8 } else { a2 }) ^ (if b & 8u8 == 0 { 0u8 } else { a3 }) ^ (if b & 16u8
            == 0 { 0u8 } else { a4 }) ^ (if b & 32u8 == 0 { 0u8 } else { a5 }) ^ (if b & 64u8 == 0 {
            0u8
        } else { a6 }) ^ (if b & 128u8 == 0 { 0u8 } else { a7 })) ^ ((if c & 1u8 == 0 { 0u8 } else {
            a0
        }) ^ (if c & 2u8 == 0 { 0u8 } else { a1 }) ^ (if c & 4u8 == 0 { 0u8 } else { a2 }) ^ (if c
            & 8u8 == 0 { 0u8 } else { a3 }) ^ (if c & 16u8 == 0 { 0u8 } else { a4 }) ^ (if c & 32u8
            == 0 { 0u8 } else { a5 }) ^ (if c & 64u8 == 0 { 0u8 } else { a6 }) ^ (if c & 128u8 == 0 {
            0u8
        } else { a7 })),
{
}

proof fn lemma_gf_mul_distributive(a: u8, b: u8, c: u8)
    ensures
        gf_mul(a, b ^ c) == gf_mul(a, b) ^ gf_mul(a, c),
{
    let a1 = xtime(a);
    let a2 = xtime(a1);
    let a3 = xtime(a2);
    let a4 = xtime(a3);
    let a5 = xtime(a4);
    let a6 = xtime(a5);
    let a7 = xtime(a6);
    lemma_bit_sum_linear(a, a1, a2, a3, a4, a5, a6, a7, b, c);
}

proof fn lemma_gf_mul_powers(i: nat, j: nat)
    ensures
        gf_mul(alpha_pow(i), alpha_pow(j)) == alpha_pow(i + j),
        gf_mul(alpha_pow(i), alpha_pow(j)) == gf_mul(alpha_pow(j), alpha_pow(i)),
        gf_mul(alpha_pow(i), alpha_pow(j)) != 0,
{
    lemma_alpha_pow_add(i, j);
    lemma_alpha_pow_add(j, i);
    assert(i + j == j + i);
    lemma_alpha_pow_nonzero(i + j);
}

proof fn lemma_gf_mul_nonzero_assoc(a: u8, b: u8, c: u8)
    requires
        a != 0,
        b != 0,
        c != 0,
    ensures
        gf_mul(a, b) == gf_mul(b, a),
        gf_mul(a, b) != 0,
        gf_mul(gf_mul(a, b), c) == gf_mul(a, gf_mul(b, c)),
{
    let i = lemma_log(a);
    let j = lemma_log(b);
    let k = lemma_log(c);
    lemma_gf_mul_powers(i, j);
    lemma_gf_mul_powers(j, k);
    lemma_gf_mul_powers(i + j, k);
    lemma_gf_mul_powers(i, j + k);
    assert(i + j + k == i + (j + k));
}

/// The field laws of the product: it is commutative and associative,
/// distributes over `^` (field addition), and a product is zero exactly when
/// one of its factors is.
pub proof fn lemma_gf_mul_laws(a: u8, b: u8, c: u8)
    ensures
        gf_mul(a, b) == gf_mul(b, a),
        gf_mul(gf_mul(a, b), c) == gf_mul(a, gf_mul(b, c)),
        gf_mul(a, b ^ c) == gf_mul(a, b) ^ gf_mul(a, c),
        gf_mul(a, b) == 0 <==> (a == 0 || b == 0),
{
    lemma_gf_mul_distributive(a, b, c);
    lemma_gf_mul_identities(a);
    lemma_gf_mul_identities(b);
    lemma_gf_mul_identities(c);
    if a == 0 || b == 0 || c == 0 {
        lemma_gf_mul_identities(gf_mul(a, b));
        lemma_gf_mul_identities(gf_mul(b, c));
        if a != 0 && b != 0 {
            lemma_gf_mul_nonzero_assoc(a, b, 1);
        }
    } else {
        lemma_gf_mul_nonzero_assoc(a, b, c);
    }
}

proof fn lemma_gen_step(x: u16)
    requires
        x < 256,
    ensures
        ({
            let y = (x << 1u16) as u16;
            let z = if y & 0x100u16 != 0 { y ^ 0x11Du16 } else { y };
            z < 256 && z as u8 == xtime(x as u8) && (x != 0 ==> z != 0)
        }),
{
    assert({
        let y = (x << 1u16) as u16;
        let z = if y & 0x100u16 != 0 { y ^ 0x11Du16 } else { y };
        z < 256 && z as u8 == xtime(x as u8) && (x != 0 ==> z != 0)
    }) by (bit_vector)
        requires
            x < 256,
    ;
}

/// GF(256) context: exponent and logarithm tables.
pub struct Gf {
    /// `exp[i] = α^i`, doubled to avoid modular reduction.
    exp: [u8; 512],
    /// `log[x] = i` such that `α^i = x`; `log[0]` is meaningless.
    log: [u8; 256],
}

impl Gf {
    /// The exponent table: `exp[i] = α^(i mod 255)` for `i < 510`; the last two
    /// entries are 0.
    pub closed spec fn exp_table(&self) -> Seq<u8> {
        self.exp@
    }

    /// The logarithm table: `α^log[x] = x` for every non-zero `x`; `log[0]` is 0.
    pub closed spec fn log_table(&self) -> Seq<u8> {
        self.log@
    }

    #[verifier::type_invariant]
    spec fn tables_correct(&self) -> bool {
        &&& forall|i: int|
            0 <= i < 255 ==> #[trigger] self.exp@[i] == alpha_pow(i as nat) && self.exp@[i
                + 255] == alpha_pow(i as nat)
        &&& forall|x: int|
            1 <= x < 256 ==> #[trigger] self.log@[x] < 255 && alpha_pow(self.log@[x] as nat) == x
    }

    /// Build the exponent and logarithm tables.
    #[verifier::spinoff_prover]
    pub fn new() -> (gf: Self)
        ensures
            gf.exp_table().len() == 512,
            gf.log_table().len() == 256,
            forall|i: int|
                0 <= i < 255 ==> #[trigger] gf.exp_table()[i] == alpha_pow(i as nat)
                    && gf.exp_table()[i + 255] == alpha_pow(i as nat),
            gf.exp_table()[510] == 0u8,
            gf.exp_table()[511] == 0u8,
            gf.log_table()[0] == 0u8,
            forall|x: int|
                1 <= x < 256 ==> #[trigger] gf.log_table()[x] < 255 && alpha_pow(
                    gf.log_table()[x] as nat,
                ) == x,
    {
        let mut exp = [0u8; 512];
        let mut log = [0u8; 256];
        let mut x: u16 = 1;
        let mut i: usize = 0;
        while i < 255
            invariant
                i <= 255,
                x < 256,
                x != 0,
                x as u8 == alpha_pow(i as nat),
                exp@[510] == 0u8,
                exp@[511] == 0u8,
                log@[0] == 0u8,
                forall|j: int|
                    0 <= j < i ==> #[trigger] exp@[j] == alpha_pow(j as nat) && exp@[j + 255]
                        == alpha_pow(j as nat),
                forall|y: int|
                    1 <= y < 256 && #[trigger] is_alpha_power_below(y as u8, i as nat) ==> log@[y]
                        < i && alpha_pow(log@[y] as nat) == y,
            decreases 255 - i,
        {
            let ghost old_log = log@;
            let ghost old_x = x;
            let ghost old_i = i;
            exp[i] = x as u8;
            exp[i + 255] = x as u8;
            log[x as usize] = i as u8;
            x = x << 1u16;
            if x & 0x100u16 != 0 {
                x = x ^ 0x11Du16;
            }
            i = i + 1;
            proof {
                lemma_gen_step(old_x);
                assert forall|j: int| 0 <= j < i implies #[trigger] exp@[j] == alpha_pow(j as nat)
                    && exp@[j + 255] == alpha_pow(j as nat) by {
                    if j < old_i {
                        assert(exp@[j] == alpha_pow(j as nat));
                        assert(exp@[j + 255] == alpha_pow(j as nat));
                    } else {
                        assert(j == old_i);
                        assert(exp@[j] == old_x as u8);
                        assert(exp@[j + 255] == old_x as u8);
                    }
                }
                assert forall|y: int|
                    1 <= y < 256 && #[trigger] is_alpha_power_below(
                        y as u8,
                        i as nat,
                    ) implies log@[y] < i && alpha_pow(log@[y] as nat) == y by {
                    if y == old_x as int {
                        assert(log@[y] == old_i as u8);
                        assert(alpha_pow(old_i as nat) == y as u8);
                    } else {
                        let j = choose|j: nat| j < i && #[trigger] alpha_pow(j) == y as u8;
                        assert(j != old_i);
                        assert(is_alpha_power_below(y as u8, old_i as nat));
                        assert(old_log[y] < old_i);
                        assert(log@[y] == old_log[y]);
                    }
                }
            }
        }
        let ghost before = exp@;
        exp[255] = exp[0];
        proof {
            assert forall|j: int| 0 <= j < 255 implies #[trigger] exp@[j] == alpha_pow(j as nat)
                && exp@[j + 255] == alpha_pow(j as nat) by {
                assert(before[j] == alpha_pow(j as nat));
                assert(before[0] == alpha_pow(0));
            }
            lemma_alpha_generates();
            assert forall|y: int| 1 <= y < 256 implies #[trigger] log@[y] < 255 && alpha_pow(
                log@[y] as nat,
            ) == y by {
                assert(y as u8 != 0);
                assert(is_alpha_power(y as u8));
                assert(is_alpha_power_below(y as u8, 255));
            }
        }
        Gf { exp, log }
    }

    /// Multiply two field elements.
    pub fn mul(&self, a: u8, b: u8) -> (r: u8)
        ensures
            r == gf_mul(a, b),
    {
        proof {
            use_type_invariant(self);
            lemma_gf_mul_identities(a);
            lemma_gf_mul_identities(b);
        }
        if a == 0 || b == 0 {
            return 0;
        }
        let la = self.log[a as usize] as usize;
        let lb = self.log[b as usize] as usize;
        proof {
            lemma_alpha_pow_add(la as nat, lb as nat);
            if la + lb >= 255 {
                lemma_alpha_generates();
                lemma_alpha_pow_add((la + lb - 255) as nat, 255);
                lemma_gf_mul_identities(alpha_pow((la + lb - 255) as nat));
                let k = (la + lb - 255) as int;
                assert(self.exp@[k] == alpha_pow(k as nat));
                assert(self.exp@[k + 255] == alpha_pow(k as nat));
            }
        }
        self.exp[la + lb]
    }
}

// ─────────────────────────────────────────────────────────────────────────
// Reed–Solomon generator polynomial and remainder
// ─────────────────────────────────────────────────────────────────────────

proof fn lemma_xor_zero(x: u8)
    ensures
        x ^ 0u8 == x,
        0u8 ^ x == x,
        x ^ x == 0u8,
{
    assert(x ^ 0u8 == x && 0u8 ^ x == x && x ^ x == 0u8) by (bit_vector);
}

/// `(x + r) · p(x)` with coefficients listed from the highest power down.
pub open spec fn mul_by_linear(p: Seq<u8>, r: u8) -> Seq<u8> {
    Seq::new(
        p.len() + 1,
        |j: int|
            (if j >= 1 { gf_mul(p[j - 1], r) } else { 0u8 }) ^ (if j < p.len() {
                p[j]
            } else {
                0u8
            }),
    )
}

/// The Reed–Solomon generator polynomial `∏_{i<k} (x + α^i)`, highest power first
/// (its leading coefficient is 1).
pub open spec fn generator_poly(k: nat) -> Seq<u8>
    decreases k,
{
    if k == 0 {
        seq![1u8]
    } else {
        mul_by_linear(generator_poly((k - 1) as nat), alpha_pow((k - 1) as nat))
    }
}

proof fn lemma_generator_poly_len(k: nat)
    ensures
        generator_poly(k).len() == k + 1,
    decreases k,
{
    if k > 0 {
        lemma_generator_poly_len((k - 1) as nat);
    }
}

/// One in-place multiplication step of the generator computation on a
/// right-aligned coefficient array.
spec fn divisor_step(a: Seq<u8>, r: u8) -> Seq<u8> {
    Seq::new(
        a.len(),
        |j: int|
            if j + 1 < a.len() {
                gf_mul(a[j], r) ^ a[j + 1]
            } else {
                gf_mul(a[j], r)
            },
    )
}

/// `n` zero bytes.
pub open spec fn zeros(n: nat) -> Seq<u8> {
    Seq::new(n, |i: int| 0u8)
}

proof fn lemma_divisor_step(z: nat, p: Seq<u8>, r: u8)
    requires
        p.len() >= 1,
    ensures
        z > 0 ==> divisor_step(zeros(z) + p, r) =~= zeros((z - 1) as nat) + mul_by_linear(p, r),
        z == 0 ==> divisor_step(zeros(z) + p, r) =~= mul_by_linear(p, r).drop_first(),
{
    lemma_gf_mul_identities(r);
    lemma_xor_zero(0u8);
    let a = zeros(z) + p;
    let q = mul_by_linear(p, r);
    assert forall|j: int| 0 <= j < a.len() implies #[trigger] divisor_step(a, r)[j] == (if z
        > 0 {
        (zeros((z - 1) as nat) + q)[j]
    } else {
        q[j + 1]
    }) by {
        lemma_xor_zero(gf_mul(a[j], r));
        if j + 1 < a.len() {
            lemma_xor_zero(a[j + 1]);
        }
        if z > 0 {
            if j >= z - 1 {
                let m = j - (z - 1);
                if m >= 1 {
                    lemma_xor_zero(gf_mul(p[m - 1], r));
                }
                lemma_xor_zero(p[0]);
            }
        } else {
            lemma_xor_zero(gf_mul(p[j], r));
        }
    }
}

/// Compute the RS generator polynomial of the given `degree`. The coefficients
/// are written to `out[..degree]`, highest power first, leading 1 omitted.
pub fn rs_divisor(degree: usize, gf: &Gf, out: &mut [u8])
    requires
        1 <= degree <= old(out)@.len(),
    ensures
        final(out)@.len() == old(out)@.len(),
        final(out)@.subrange(0, degree as int) == generator_poly(degree as nat).drop_first(),
        forall|i: int| degree <= i < final(out)@.len() ==> #[trigger] final(out)@[i] == 0u8,
{
    let ghost orig = out@;
    let len = out.len();
    for b in 0..len
        invariant
            out@.len() == orig.len(),
            len == orig.len(),
            forall|i: int| 0 <= i < b ==> out@[i] == 0u8,
    {
        out[b] = 0;
    }
    out[degree - 1] = 1;
    let mut root: u8 = 1;
    let mut k: usize = 0;
    proof {
        assert(out@.subrange(0, degree as int) =~= zeros((degree - 1) as nat) + generator_poly(0));
    }
    while k < degree
        invariant
            k <= degree,
            1 <= degree,
            out@.len() == orig.len(),
            degree <= orig.len(),
            root == alpha_pow(k as nat),
            forall|i: int| degree <= i < orig.len() ==> out@[i] == 0u8,
            k < degree ==> out@.subrange(0, degree as int) == zeros((degree - 1 - k) as nat)
                + generator_poly(k as nat),
            k == degree ==> out@.subrange(0, degree as int) == generator_poly(
                degree as nat,
            ).drop_first(),
        decreases degree - k,
    {
        let ghost prev = out@.subrange(0, degree as int);
        proof {
            lemma_generator_poly_len(k as nat);
        }
        for j in 0..degree
            invariant
                k < degree,
                1 <= degree <= orig.len(),
                out@.len() == orig.len(),
                prev.len() == degree,
                forall|i: int| degree <= i < orig.len() ==> out@[i] == 0u8,
                forall|i: int| 0 <= i < j ==> out@[i] == divisor_step(prev, root)[i],
                forall|i: int| j <= i < degree ==> out@[i] == prev[i],
        {
            let m = gf.mul(out[j], root);
            out[j] = m;
            if j + 1 < degree {
                out[j] = m ^ out[j + 1];
            }
        }
        proof {
            assert(out@.subrange(0, degree as int) =~= divisor_step(prev, root));
            lemma_divisor_step((degree - 1 - k) as nat, generator_poly(k as nat), root);
            lemma_gf_mul_identities(root);
        }
        root = gf.mul(root, 2);
        k = k + 1;
        proof {
            if k < degree {
                assert((degree - 1 - k) as nat == ((degree - 1 - (k - 1)) as nat - 1) as nat);
            }
        }
    }
}

/// Remainder of `data(x) · x^n` divided by the monic polynomial `x^n + divisor(x)`
/// (`n = divisor.len()`, coefficients highest power first), computed by Horner's
/// rule over the message bytes.
pub open spec fn rs_remainder_spec(data: Seq<u8>, divisor: Seq<u8>) -> Seq<u8>
    decreases data.len(),
{
    if data.len() == 0 {
        zeros(divisor.len())
    } else {
        let r = rs_remainder_spec(data.drop_last(), divisor);
        let factor = data.last() ^ r[0];
        Seq::new(
            divisor.len(),
            |i: int|
                (if i + 1 < divisor.len() { r[i + 1] } else { 0u8 }) ^ gf_mul(factor, divisor[i]),
        )
    }
}

proof fn lemma_rs_remainder_len(data: Seq<u8>, divisor: Seq<u8>)
    ensures
        rs_remainder_spec(data, divisor).len() == divisor.len(),
    decreases data.len(),
{
    if data.len() > 0 {
        lemma_rs_remainder_len(data.drop_last(), divisor);
    }
}

proof fn lemma_rs_remainder_appended(data: Seq<u8>, divisor: Seq<u8>, k: nat)
    requires
        k <= divisor.len(),
    ensures
        ({
            let rem = rs_remainder_spec(data, divisor);
            rs_remainder_spec(data + rem.take(k as int), divisor) == rem.skip(k as int) + zeros(k)
        }),
    decreases k,
{
    let rem = rs_remainder_spec(data, divisor);
    lemma_rs_remainder_len(data, divisor);
    if k == 0 {
        assert(data + rem.take(0) =~= data);
        assert(rem.skip(0) + zeros(0) =~= rem);
    } else {
        let k1 = (k - 1) as nat;
        lemma_rs_remainder_appended(data, divisor, k1);
        let d = data + rem.take(k as int);
        assert(d.drop_last() =~= data + rem.take(k1 as int));
        assert(d.last() == rem[k1 as int]);
        let r = rem.skip(k1 as int) + zeros(k1);
        assert(r[0] == rem[k1 as int]);
        lemma_xor_zero(rem[k1 as int]);
        let n = divisor.len();
        let next = rs_remainder_spec(d, divisor);
        assert forall|i: int| 0 <= i < n implies #[trigger] next[i] == (rem.skip(k as int) + zeros(
            k,
        ))[i] by {
            lemma_gf_mul_identities(divisor[i]);
            let left: u8 = if i + 1 < n { r[i + 1] } else { 0u8 };
            lemma_xor_zero(left);
        }
        assert(next =~= rem.skip(k as int) + zeros(k));
    }
}

/// A message followed by its Reed–Solomon remainder is divisible by the
/// generator: dividing it again leaves a remainder of zeros.
pub proof fn lemma_rs_codeword_divisible(data: Seq<u8>, divisor: Seq<u8>)
    ensures
        rs_remainder_spec(data + rs_remainder_spec(data, divisor), divisor) == zeros(divisor.len()),
{
    let rem = rs_remainder_spec(data, divisor);
    lemma_rs_remainder_len(data, divisor);
    lemma_rs_remainder_appended(data, divisor, divisor.len());
    assert(rem.take(divisor.len() as int) =~= rem);
    assert(rem.skip(divisor.len() as int) + zeros(divisor.len()) =~= zeros(divisor.len()));
}

/// Divide `data` by `divisor` (highest power first, leading 1 omitted) and write
/// the `divisor.len()` remainder bytes into `remainder[..divisor.len()]`.
pub fn rs_remainder(data: &[u8], divisor: &[u8], gf: &Gf, remainder: &mut [u8])
    requires
        data@.len() > 0 ==> 1 <= divisor@.len() <= old(remainder)@.len(),
    ensures
        final(remainder)@.len() == old(remainder)@.len(),
        divisor@.len() <= old(remainder)@.len() ==> final(remainder)@.subrange(
            0,
            divisor@.len() as int,
        ) == rs_remainder_spec(data@, divisor@),
        forall|i: int|
            divisor@.len() <= i < final(remainder)@.len() ==> #[trigger] final(remainder)@[i]
                == 0u8,
        data@.len() == 0 ==> forall|i: int|
            0 <= i < final(remainder)@.len() ==> #[trigger] final(remainder)@[i] == 0u8,
{
    let ghost orig = remainder@;
    let n = divisor.len();
    let len = remainder.len();
    for b in 0..len
        invariant
            remainder@.len() == orig.len(),
            len == orig.len(),
            forall|i: int| 0 <= i < b ==> remainder@[i] == 0u8,
    {
        remainder[b] = 0;
    }
    if data.len() == 0 {
        proof {
            if n <= len {
                assert(remainder@.subrange(0, n as int) =~= rs_remainder_spec(data@, divisor@));
            }
        }
        return;
    }
    proof {
        assert(remainder@.subrange(0, n as int) =~= rs_remainder_spec(data@.subrange(0, 0), divisor@));
    }
    for k in 0..data.len()
        invariant
            n == divisor@.len(),
            1 <= n <= orig.len(),
            remainder@.len() == orig.len(),
            forall|i: int| n <= i < orig.len() ==> remainder@[i] == 0u8,
            remainder@.subrange(0, n as int) == rs_remainder_spec(data@.subrange(0, k as int), divisor@),
    {
        let ghost prev = remainder@.subrange(0, n as int);
        proof {
            lemma_rs_remainder_len(data@.subrange(0, k as int), divisor@);
            assert(data@.subrange(0, k + 1).drop_last() =~= data@.subrange(0, k as int));
            assert(remainder@[0] == prev[0]);
        }
        let byte = data[k];
        let factor = byte ^ remainder[0];
        for i in 0..n - 1
            invariant
                n == divisor@.len(),
                1 <= n <= orig.len(),
                remainder@.len() == orig.len(),
                prev.len() == n,
                forall|t: int| n <= t < orig.len() ==> remainder@[t] == 0u8,
                forall|t: int| 0 <= t < i ==> remainder@[t] == prev[t + 1],
                forall|t: int| i <= t < n ==> remainder@[t] == prev[t],
        {
            remainder[i] = remainder[i + 1];
        }
        remainder[n - 1] = 0;
        let ghost shifted = remainder@.subrange(0, n as int);
        if factor != 0 {
            for i in 0..n
                invariant
                    n == divisor@.len(),
                    1 <= n <= orig.len(),
                    remainder@.len() == orig.len(),
                    shifted.len() == n,
                    forall|t: int| n <= t < orig.len() ==> remainder@[t] == 0u8,
                    forall|t: int| 0 <= t < i ==> remainder@[t] == shifted[t] ^ gf_mul(factor, divisor@[t]),
                    forall|t: int| i <= t < n ==> remainder@[t] == shifted[t],
            {
                remainder[i] = remainder[i] ^ gf.mul(factor, divisor[i]);
            }
        }
        proof {
            let r = rs_remainder_spec(data@.subrange(0, k + 1), divisor@);
            assert forall|t: int| 0 <= t < n implies #[trigger] remainder@[t] == r[t] by {
                if factor == 0 {
                    lemma_gf_mul_identities(divisor@[t]);
                    lemma_xor_zero(shifted[t]);
                }
            }
            assert(remainder@.subrange(0, n as int) =~= r);
        }
    }
    proof {
        assert(data@.subrange(0, data@.len() as int) =~= data@);
    }
}

// ─────────────────────────────────────────────────────────────────────────
// Version tables (ECC level M) and module flags
// ─────────────────────────────────────────────────────────────────────────

/// Maximum supported version (5 → 37 × 37 modules).
pub const MAX_VERSION: usize = 5;
/// Module dimension for the maximum supported version.
pub const MAX_DIM: usize = 37;
/// Number of cells of the module grid.
pub const GRID_CELLS: usize = 1369;

/// Bit 0 of a grid cell: module is dark.
pub const DARK: u8 = 0x01;
/// Bit 1 of a grid cell: module belongs to a function pattern.
pub const FUNC: u8 = 0x02;

/// Per-version constants for ECC level M:
/// `(max_user_bytes, data_codewords, ec_per_block, num_blocks)`.
pub open spec fn version_params(version: int) -> (int, int, int, int) {
    if version == 1 {
        (14, 16, 10, 1)
    } else if version == 2 {
        (26, 28, 16, 1)
    } else if version == 3 {
        (42, 44, 26, 1)
    } else if version == 4 {
        (62, 64, 18, 2)
    } else {
        (84, 86, 24, 2)
    }
}

/// Payload capacity in bytes of a version.
pub open spec fn capacity(version: int) -> int {
    version_params(version).0
}

fn version_table(version: u8) -> (r: (u8, u8, u8, u8))
    requires
        1 <= version <= 5,
    ensures
        (r.0 as int, r.1 as int, r.2 as int, r.3 as int) == version_params(version as int),
{
    match version {
        1 => (14, 16, 10, 1),
        2 => (26, 28, 16, 1),
        3 => (42, 44, 26, 1),
        4 => (62, 64, 18, 2),
        _ => (84, 86, 24, 2),
    }
}

/// The smallest version whose capacity holds `len` bytes, if any.
pub open spec fn min_version(len: int) -> Option<int> {
    if len <= capacity(1) {
        Some(1)
    } else if len <= capacity(2) {
        Some(2)
    } else if len <= capacity(3) {
        Some(3)
    } else if len <= capacity(4) {
        Some(4)
    } else if len <= capacity(5) {
        Some(5)
    } else {
        None
    }
}

/// Format information words (ECC M) for masks 0–7.
pub open spec fn format_word(mask: int) -> u16 {
    if mask == 0 {
        0x5412u16
    } else if mask == 1 {
        0x5125u16
    } else if mask == 2 {
        0x5E7Cu16
    } else if mask == 3 {
        0x5B4Bu16
    } else if mask == 4 {
        0x45F9u16
    } else if mask == 5 {
        0x40CEu16
    } else if mask == 6 {
        0x4F97u16
    } else {
        0x4AA0u16
    }
}

fn format_bits_ecc_m(mask: u8) -> (r: u16)
    requires
        mask < 8,
    ensures
        r == format_word(mask as int),
{
    match mask {
        0 => 0x5412,
        1 => 0x5125,
        2 => 0x5E7C,
        3 => 0x5B4B,
        4 => 0x45F9,
        5 => 0x40CE,
        6 => 0x4F97,
        _ => 0x4AA0,
    }
}

/// Whether a grid cell value marks a dark module.
pub open spec fn is_dark(m: u8) -> bool {
    m & DARK != 0
}

/// Whether a grid cell value marks a function-pattern module.
pub open spec fn is_func(m: u8) -> bool {
    m & FUNC != 0
}

/// Cell value of a function module.
pub open spec fn func_cell(dark: bool) -> u8 {
    if dark {
        3u8
    } else {
        2u8
    }
}

proof fn lemma_cell_bits()
    ensures
        (FUNC | DARK) == 3u8,
        (FUNC | 0u8) == 2u8,
        is_dark(3u8) && is_func(3u8),
        !is_dark(2u8) && is_func(2u8),
        is_dark(DARK) && !is_func(DARK),
        !is_dark(0u8) && !is_func(0u8),
        forall|m: u8| #[trigger] is_func(m | FUNC),
        forall|m: u8| is_dark(#[trigger] (m | FUNC)) == is_dark(m),
        forall|m: u8| is_func(#[trigger] (m ^ DARK)) == is_func(m),
        forall|m: u8| is_dark(#[trigger] (m ^ DARK)) == !is_dark(m),
        forall|m: u8| #[trigger] (m ^ DARK ^ DARK) == m,
        forall|m: u8| #[trigger] ((m | FUNC) | FUNC) == m | FUNC,
{
    assert((FUNC | DARK) == 3u8) by (bit_vector);
    assert((FUNC | 0u8) == 2u8) by (bit_vector);
    assert(is_dark(3u8) && is_func(3u8) && !is_dark(2u8) && is_func(2u8) && is_dark(DARK)
        && !is_func(DARK) && !is_dark(0u8) && !is_func(0u8)) by (bit_vector);
    assert(forall|m: u8| #[trigger] is_func(m | FUNC)) by (bit_vector);
    assert(forall|m: u8| is_dark(#[trigger] (m | FUNC)) == is_dark(m)) by (bit_vector);
    assert(forall|m: u8| is_func(#[trigger] (m ^ DARK)) == is_func(m)) by (bit_vector);
    assert(forall|m: u8| is_dark(#[trigger] (m ^ DARK)) == !is_dark(m)) by (bit_vector);
    assert(forall|m: u8| #[trigger] (m ^ DARK ^ DARK) == m) by (bit_vector);
    assert(forall|m: u8| #[trigger] ((m | FUNC) | FUNC) == m | FUNC) by (bit_vector);
}

/// Grid index of `(row, col)`.
pub open spec fn cell_index(row: int, col: int) -> int {
    row * MAX_DIM + col
}

/// The ISO/IEC 18004 mask conditions for masks 0–7.
pub open spec fn mask_condition(mask: int, r: int, c: int) -> bool {
    if mask == 0 {
        (r + c) % 2 == 0
    } else if mask == 1 {
        r % 2 == 0
    } else if mask == 2 {
        c % 3 == 0
    } else if mask == 3 {
        (r + c) % 3 == 0
    } else if mask == 4 {
        (r / 2 + c / 3) % 2 == 0
    } else if mask == 5 {
        (r * c) % 2 + (r * c) % 3 == 0
    } else if mask == 6 {
        ((r * c) % 2 + (r * c) % 3) % 2 == 0
    } else if mask == 7 {
        ((r + c) % 2 + (r * c) % 3) % 2 == 0
    } else {
        false
    }
}

/// `g` with `mask` applied to every non-function module of the `size × size` area.
pub open spec fn masked_grid(g: Seq<u8>, size: int, mask: int) -> Seq<u8> {
    Seq::new(
        g.len(),
        |i: int|
            {
                let r = i / MAX_DIM as int;
                let c = i % MAX_DIM as int;
                if r < size && c < size && !is_func(g[i]) && mask_condition(mask, r, c) {
                    g[i] ^ DARK
                } else {
                    g[i]
                }
            },
    )
}

/// Whether `(r, c)` lies on the one-module ring around the 7 × 7 finder at
/// `(top, left)`, inside a `size × size` grid.
pub open spec fn separator_at(top: int, left: int, size: int, r: int, c: int) -> bool {
    &&& top - 1 <= r <= top + 7
    &&& left - 1 <= c <= left + 7
    &&& !(top <= r < top + 7 && left <= c < left + 7)
    &&& 0 <= r < size
    &&& 0 <= c < size
}

/// Bit `k` of a format word.
pub open spec fn format_bit(w: u16, k: int) -> bool {
    (w >> (k as u16)) & 1u16 != 0
}

/// Which format-information bit is stored at `(r, c)` of a `size × size` symbol.
pub open spec fn format_position(size: int, r: int, c: int) -> Option<int> {
    if r == 8 && 0 <= c <= 5 {
        Some(c)
    } else if r == 8 && c == 7 {
        Some(6)
    } else if r == 8 && c == 8 {
        Some(7)
    } else if r == 7 && c == 8 {
        Some(8)
    } else if c == 8 && 0 <= r <= 5 {
        Some(14 - r)
    } else if c == 8 && size - 7 <= r < size {
        Some(size - 1 - r)
    } else if r == 8 && size - 8 <= c < size {
        Some(c - (size - 15))
    } else {
        None
    }
}

/// `g` with the format information of `mask` written into both copies.
pub open spec fn formatted_grid(g: Seq<u8>, size: int, mask: int) -> Seq<u8> {
    Seq::new(
        g.len(),
        |i: int|
            match format_position(size, i / MAX_DIM as int, i % MAX_DIM as int) {
                Some(k) => func_cell(format_bit(format_word(mask), k)),
                None => g[i],
            },
    )
}

/// Dark modules of a 7 × 7 finder pattern, relative to its top-left corner.
pub open spec fn finder_dark(dr: int, dc: int) -> bool {
    dr == 0 || dr == 6 || dc == 0 || dc == 6 || (2 <= dr <= 4 && 2 <= dc <= 4)
}

/// Dark modules of a 5 × 5 alignment pattern, relative to its centre.
pub open spec fn alignment_dark(dr: int, dc: int) -> bool {
    dr == 2 || dr == -2 || dc == 2 || dc == -2 || (dr == 0 && dc == 0)
}

/// The function pattern drawn at `(r, c)` of a version-`version` symbol, as
/// `Some(dark)`, or `None` for a module outside every pattern: the three finders,
/// their separators, the two timing patterns, the alignment pattern (version 2+)
/// and the dark module.
pub open spec fn function_pattern(version: int, r: int, c: int) -> Option<bool> {
    let s = 17 + 4 * version;
    if 0 <= r < 7 && 0 <= c < 7 {
        Some(finder_dark(r, c))
    } else if 0 <= r < 7 && s - 7 <= c < s {
        Some(finder_dark(r, c - (s - 7)))
    } else if s - 7 <= r < s && 0 <= c < 7 {
        Some(finder_dark(r - (s - 7), c))
    } else if (r == 7 && 0 <= c <= 7) || (c == 7 && 0 <= r <= 7) {
        Some(false)
    } else if (r == 7 && s - 8 <= c < s) || (c == s - 8 && 0 <= r <= 7) {
        Some(false)
    } else if (c == 7 && s - 8 <= r < s) || (r == s - 8 && 0 <= c <= 7) {
        Some(false)
    } else if r == 6 && 8 <= c < s - 8 {
        Some(c % 2 == 0)
    } else if c == 6 && 8 <= r < s - 8 {
        Some(r % 2 == 0)
    } else if version >= 2 && s - 9 <= r <= s - 5 && s - 9 <= c <= s - 5 {
        Some(alignment_dark(r - (s - 7), c - (s - 7)))
    } else if r == s - 8 && c == 8 {
        Some(true)
    } else {
        None
    }
}

/// `g` with every function pattern of `version` drawn.
pub open spec fn patterned_grid(g: Seq<u8>, version: int) -> Seq<u8> {
    Seq::new(
        g.len(),
        |i: int|
            match function_pattern(version, i / MAX_DIM as int, i % MAX_DIM as int) {
                Some(d) => func_cell(d),
                None => g[i],
            },
    )
}

/// Whether `(r, c)` belongs to one of the format-information strips.
pub open spec fn format_reserved(size: int, r: int, c: int) -> bool {
    ||| (r == 8 && 0 <= c <= 8 && c != 6)
    ||| (c == 8 && 0 <= r <= 8 && r != 6)
    ||| (c == 8 && size - 8 <= r < size)
    ||| (r == 8 && size - 8 <= c < size)
}

/// `g` with the format-information strips marked as function modules.
pub open spec fn reserved_grid(g: Seq<u8>, size: int) -> Seq<u8> {
    Seq::new(
        g.len(),
        |i: int|
            if format_reserved(size, i / MAX_DIM as int, i % MAX_DIM as int) {
                g[i] | FUNC
            } else {
                g[i]
            },
    )
}

/// A generated QR code, stored as a square grid of modules.
pub struct QrCode {
    version: u8,
    size: u8,
    /// Module grid: `grid[row * MAX_DIM + col]`; bit 0 dark, bit 1 function pattern.
    grid: [u8; GRID_CELLS],
}

impl QrCode {
    /// The raw module grid.
    pub closed spec fn cells(&self) -> Seq<u8> {
        self.grid@
    }

    /// The version number.
    pub closed spec fn spec_version(&self) -> int {
        self.version as int
    }

    /// The side length in modules.
    pub closed spec fn spec_size(&self) -> int {
        self.size as int
    }

    /// Well-formedness: a supported version and its matching size.
    pub open spec fn wf(&self) -> bool {
        &&& 1 <= self.spec_version() <= 5
        &&& self.spec_size() == 17 + 4 * self.spec_version()
        &&& self.cells().len() == GRID_CELLS
    }

    /// Whether the module at `(row, col)` is dark.
    pub open spec fn dark_at(&self, row: int, col: int) -> bool {
        is_dark(self.cells()[cell_index(row, col)])
    }

    /// Encode `data` as a QR code (byte mode, ECC level M).
    ///
    /// Returns `None` exactly when `data` is longer than 84 bytes (the capacity
    /// of version 5); otherwise the symbol of the smallest version that holds
    /// the payload, masked with the pattern of lowest penalty.
    pub fn encode(data: &[u8]) -> (r: Option<QrCode>)
        ensures
            r is None <==> data@.len() > 84,
            match r {
                Some(q) => {
                    &&& q.wf()
                    &&& min_version(data@.len() as int) == Some(q.spec_version())
                    &&& q.cells() == encoded_grid(data@, q.spec_version())
                },
                None => true,
            },
    {
        let version = Self::select_version(data.len())?;
        let mut qr = QrCode { version, size: 17 + 4 * version, grid: [0u8; 1369] };
        proof {
            assert(qr.cells() =~= blank_grid());
        }
        let mut codewords = [0u8; 134];
        let cw_count = qr.build_codewords(data, &mut codewords);
        qr.draw_function_patterns();
        qr.reserve_format_areas();
        qr.place_codewords(vstd::slice::slice_subrange(codewords.as_slice(), 0, cw_count));
        let best_mask = qr.choose_mask();
        qr.apply_mask(best_mask);
        qr.draw_format_bits(best_mask);
        Some(qr)
    }

    /// Version number (1 – 5).
    pub fn version(&self) -> (r: u8)
        ensures
            r as int == self.spec_version(),
    {
        self.version
    }

    /// Side length of the QR code in modules (21 – 37).
    pub fn size(&self) -> (r: usize)
        ensures
            r as int == self.spec_size(),
    {
        self.size as usize
    }

    /// Returns `true` if the module at (`row`, `col`) is dark.
    pub fn module(&self, row: usize, col: usize) -> (r: bool)
        requires
            self.wf(),
            row < self.spec_size(),
            col < self.spec_size(),
        ensures
            r == self.dark_at(row as int, col as int),
    {
        self.grid[row * MAX_DIM + col] & DARK != 0
    }

    /// The minimum version that holds `data_len` bytes.
    pub fn select_version(data_len: usize) -> (r: Option<u8>)
        ensures
            match min_version(data_len as int) {
                Some(v) => r == Some(v as u8),
                None => r is None,
            },
    {
        let mut v: u8 = 1;
        while v <= 5
            invariant
                1 <= v <= 6,
                forall|w: int| 1 <= w < v ==> data_len > capacity(w),
            decreases 6 - v,
        {
            let (max, _, _, _) = version_table(v);
            if data_len <= max as usize {
                return Some(v);
            }
            v = v + 1;
        }
        None
    }

    fn get(&self, row: usize, col: usize) -> (r: u8)
        requires
            row < MAX_DIM,
            col < MAX_DIM,
        ensures
            r == self.cells()[cell_index(row as int, col as int)],
    {
        self.grid[row * MAX_DIM + col]
    }

    fn set(&mut self, row: usize, col: usize, flags: u8)
        requires
            row < MAX_DIM,
            col < MAX_DIM,
        ensures
            final(self).cells() == old(self).cells().update(cell_index(row as int, col as int), flags),
            final(self).spec_version() == old(self).spec_version(),
            final(self).spec_size() == old(self).spec_size(),
    {
        self.grid[row * MAX_DIM + col] = flags;
    }

    fn set_func(&mut self, row: usize, col: usize, dark: bool)
        requires
            row < MAX_DIM,
            col < MAX_DIM,
        ensures
            final(self).cells() == old(self).cells().update(
                cell_index(row as int, col as int),
                func_cell(dark),
            ),
            final(self).spec_version() == old(self).spec_version(),
            final(self).spec_size() == old(self).spec_size(),
    {
        proof {
            lemma_cell_bits();
        }
        self.set(
            row,
            col,
            FUNC | if dark {
                DARK
            } else {
                0
            },
        );
    }

    /// Place the codeword bits along the zigzag traversal into every module that
    /// is not a function module; modules beyond the stream's end become light.
    fn place_codewords(&mut self, codewords: &[u8])
        requires
            old(self).wf(),
        ensures
            final(self).wf(),
            final(self).spec_version() == old(self).spec_version(),
            final(self).cells() == placed_grid(old(self).cells(), old(self).spec_size(), codewords@),
    {
        let ghost g0 = self.cells();
        let ghost v = self.spec_version();
        let size = self.size as usize;
        let mut cw_idx = 0usize;
        let mut bit_idx = 7i32;
        let mut upward = true;
        let mut col: isize = size as isize - 1;
        let ghost mut j: int = 0;
        let ghost mut t: int = 0;
        let ghost mut n: int = 0;
        proof {
            lemma_band_col(size as int, 0);
        }
        while col >= 0
            invariant
                self.wf(),
                size == self.spec_size(),
                self.spec_version() == v,
                21 <= size <= 37,
                size % 2 == 1,
                g0 == old(self).cells(),
                0 <= j <= (size - 1) / 2,
                t == j * (2 * size),
                col == band_col(size as int, j) || (col == 6 && band_col(size as int, j) == 5),
                col >= 0 ==> j < (size - 1) / 2 && col >= 1,
                col < 0 ==> j == (size - 1) / 2,
                upward == (j % 2 == 0),
                (self.cells(), n) == place_state(g0, size as int, codewords@, t as nat),
                cw_idx * 8 + 7 - bit_idx == n,
                0 <= bit_idx <= 7,
                0 <= n <= t,
                t <= 36 * 37,
            decreases col + 1,
        {
            if col == 6 {
                col -= 1;
                continue;
            }
            proof {
                lemma_zigzag_total(size as int);
                let half = (size - 1) / 2;
                assert((j + 1) * (2 * size) <= half * (2 * size)) by (nonlinear_arith)
                    requires
                        j + 1 <= half,
                        size >= 0,
                ;
                assert((size - 1) * size <= 36 * 37) by (nonlinear_arith)
                    requires
                        21 <= size <= 37,
                ;
                assert(t + 2 * size == (j + 1) * (2 * size)) by (nonlinear_arith)
                    requires
                        t == j * (2 * size),
                ;
            }
            for row_offset in 0..size
                invariant
                    self.wf(),
                    size == self.spec_size(),
                    self.spec_version() == v,
                    21 <= size <= 37,
                    g0 == old(self).cells(),
                    0 <= j < (size - 1) / 2,
                    col == band_col(size as int, j),
                    1 <= col < size,
                    upward == (j % 2 == 0),
                    t == j * (2 * size) + 2 * row_offset,
                    t + 2 * (size - row_offset) <= 36 * 37,
                    (self.cells(), n) == place_state(g0, size as int, codewords@, t as nat),
                    cw_idx * 8 + 7 - bit_idx == n,
                    0 <= bit_idx <= 7,
                    0 <= n <= t,
            {
                let row = if upward {
                    size - 1 - row_offset
                } else {
                    row_offset
                };
                for dc in 0usize..2
                    invariant
                        self.wf(),
                        size == self.spec_size(),
                        self.spec_version() == v,
                        21 <= size <= 37,
                        g0 == old(self).cells(),
                        0 <= j < (size - 1) / 2,
                        col == band_col(size as int, j),
                        1 <= col < size,
                        row_offset < size,
                        row == (if j % 2 == 0 {
                            size - 1 - row_offset
                        } else {
                            row_offset as int
                        }),
                        t == j * (2 * size) + 2 * row_offset + dc,
                        t + 2 * (size - row_offset) - dc <= 36 * 37,
                        (self.cells(), n) == place_state(g0, size as int, codewords@, t as nat),
                        cw_idx * 8 + 7 - bit_idx == n,
                        0 <= bit_idx <= 7,
                        0 <= n <= t,
                {
                    proof {
                        lemma_zigzag_at(size as int, j, row_offset as int, dc as int);
                    }
                    let c = (col - dc as isize) as usize;
                    if c < size {
                        let m = self.get(row, c);
                        if m & FUNC == 0 {
                            let bit = if cw_idx < codewords.len() {
                                (codewords[cw_idx] >> (bit_idx as u8)) & 1
                            } else {
                                0
                            };
                            proof {
                                assert(n / 8 == cw_idx as int && 7 - n % 8 == bit_idx);
                            }
                            self.set(
                                row,
                                c,
                                if bit != 0 {
                                    DARK
                                } else {
                                    0
                                },
                            );
                            bit_idx -= 1;
                            if bit_idx < 0 {
                                cw_idx += 1;
                                bit_idx = 7;
                            }
                            proof {
                                n = n + 1;
                            }
                        }
                    } else {
                        assert(false);
                    }
                    proof {
                        t = t + 1;
                    }
                }
            }
            upward = !upward;
            col -= 2;
            proof {
                assert(t == (j + 1) * (2 * size)) by (nonlinear_arith)
                    requires
                        t == j * (2 * size) + 2 * size,
                ;
                lemma_band_col(size as int, j + 1);
                j = j + 1;
            }
        }
        proof {
            lemma_zigzag_total(size as int);
        }
    }

    fn mask_bit(mask: u8, row: usize, col: usize) -> (b: bool)
        requires
            row < MAX_DIM,
            col < MAX_DIM,
        ensures
            b == mask_condition(mask as int, row as int, col as int),
    {
        let (r, c) = (row as i32, col as i32);
        assert(0 <= r * c <= 36 * 36) by (nonlinear_arith)
            requires
                0 <= r <= 36,
                0 <= c <= 36,
        ;
        match mask {
            0 => (r + c) % 2 == 0,
            1 => r % 2 == 0,
            2 => c % 3 == 0,
            3 => (r + c) % 3 == 0,
            4 => (r / 2 + c / 3) % 2 == 0,
            5 => (r * c) % 2 + (r * c) % 3 == 0,
            6 => ((r * c) % 2 + (r * c) % 3) % 2 == 0,
            7 => ((r + c) % 2 + (r * c) % 3) % 2 == 0,
            _ => false,
        }
    }

    /// Draw a 7 × 7 finder pattern at `(top, left)` with a light separator one
    /// module wide around it, clamped to the grid.
    fn draw_finder(&mut self, top: usize, left: usize)
        requires
            old(self).wf(),
            top + 7 <= old(self).spec_size(),
            left + 7 <= old(self).spec_size(),
        ensures
            final(self).wf(),
            final(self).spec_version() == old(self).spec_version(),
            forall|r: int, c: int|
                0 <= r < MAX_DIM && 0 <= c < MAX_DIM ==> #[trigger] final(self).cells()[cell_index(
                    r,
                    c,
                )] == if top <= r < top + 7 && left <= c < left + 7 {
                    func_cell(finder_dark(r - top, c - left))
                } else if top - 1 <= r <= top + 7 && left - 1 <= c <= left + 7 && r
                    < old(self).spec_size() && c < old(self).spec_size() {
                    func_cell(false)
                } else {
                    old(self).cells()[cell_index(r, c)]
                },
    {
        let ghost g0 = self.cells();
        let size = self.size as usize;
        for r in 0..7usize
            invariant
                self.wf(),
                size == self.spec_size(),
                self.spec_version() == old(self).spec_version(),
                top + 7 <= size,
                left + 7 <= size,
                forall|rr: int, cc: int|
                    0 <= rr < MAX_DIM && 0 <= cc < MAX_DIM ==> #[trigger] self.cells()[cell_index(
                        rr,
                        cc,
                    )] == if top <= rr < top + r && left <= cc < left + 7 {
                        func_cell(finder_dark(rr - top, cc - left))
                    } else {
                        g0[cell_index(rr, cc)]
                    },
        {
            for c in 0..7usize
                invariant
                    self.wf(),
                    size == self.spec_size(),
                    self.spec_version() == old(self).spec_version(),
                    top + 7 <= size,
                    left + 7 <= size,
                    r < 7,
                    forall|rr: int, cc: int|
                        0 <= rr < MAX_DIM && 0 <= cc < MAX_DIM ==> #[trigger] self.cells()[cell_index(
                            rr,
                            cc,
                        )] == if (top <= rr < top + r && left <= cc < left + 7) || (rr == top + r
                            && left <= cc < left + c) {
                            func_cell(finder_dark(rr - top, cc - left))
                        } else {
                            g0[cell_index(rr, cc)]
                        },
            {
                let dark = r == 0 || r == 6 || c == 0 || c == 6 || (r >= 2 && r <= 4 && c >= 2 && c
                    <= 4);
                self.set_func(top + r, left + c, dark);
                proof {
                    lemma_cell_index_injective();
                }
            }
        }
        let ghost g1 = self.cells();
        // The separator ring is the border of the 9 × 9 region whose top-left
        // corner is one module above and left of the finder.
        for i in 0..9usize
            invariant
                self.wf(),
                size == self.spec_size(),
                self.spec_version() == old(self).spec_version(),
                top + 7 <= size,
                left + 7 <= size,
                forall|rr: int, cc: int|
                    0 <= rr < MAX_DIM && 0 <= cc < MAX_DIM ==> #[trigger] self.cells()[cell_index(
                        rr,
                        cc,
                    )] == if top - 1 <= rr < top - 1 + i && separator_at(
                        top as int,
                        left as int,
                        size as int,
                        rr,
                        cc,
                    ) {
                        func_cell(false)
                    } else {
                        g1[cell_index(rr, cc)]
                    },
        {
            for j in 0..9usize
                invariant
                    self.wf(),
                    size == self.spec_size(),
                    self.spec_version() == old(self).spec_version(),
                    top + 7 <= size,
                    left + 7 <= size,
                    i < 9,
                    forall|rr: int, cc: int|
                        0 <= rr < MAX_DIM && 0 <= cc < MAX_DIM ==> #[trigger] self.cells()[cell_index(
                            rr,
                            cc,
                        )] == if ((top - 1 <= rr < top - 1 + i) || (rr == top - 1 + i && cc
                            < left - 1 + j)) && separator_at(
                            top as int,
                            left as int,
                            size as int,
                            rr,
                            cc,
                        ) {
                            func_cell(false)
                        } else {
                            g1[cell_index(rr, cc)]
                        },
            {
                if (i == 0 || i == 8 || j == 0 || j == 8) && top + i >= 1 && left + j >= 1 {
                    let row = top + i - 1;
                    let col = left + j - 1;
                    if row < size && col < size {
                        self.set_func(row, col, false);
                    }
                }
                proof {
                    lemma_cell_index_injective();
                }
            }
        }
    }

    /// Whether `(row, col)` falls inside one of the three finder-pattern regions.
    fn is_finder_region(&self, row: usize, col: usize) -> (b: bool)
        requires
            self.wf(),
        ensures
            b == ((row < 9 && col < 9) || (row < 9 && col >= self.spec_size() - 8) || (row
                >= self.spec_size() - 8 && col < 9)),
    {
        let s = self.size as usize;
        (row < 9 && col < 9) || (row < 9 && col >= s - 8) || (row >= s - 8 && col < 9)
    }

    /// Draw a 5 × 5 alignment pattern centred at `(cr, cc)`.
    fn draw_alignment(&mut self, cr: usize, cc: usize)
        requires
            old(self).wf(),
            2 <= cr,
            cr + 2 < MAX_DIM,
            2 <= cc,
            cc + 2 < MAX_DIM,
        ensures
            final(self).wf(),
            final(self).spec_version() == old(self).spec_version(),
            forall|r: int, c: int|
                0 <= r < MAX_DIM && 0 <= c < MAX_DIM ==> #[trigger] final(self).cells()[cell_index(
                    r,
                    c,
                )] == if cr - 2 <= r <= cr + 2 && cc - 2 <= c <= cc + 2 {
                    func_cell(alignment_dark(r - cr, c - cc))
                } else {
                    old(self).cells()[cell_index(r, c)]
                },
    {
        let ghost g0 = self.cells();
        for i in 0..5usize
            invariant
                self.wf(),
                self.spec_version() == old(self).spec_version(),
                2 <= cr,
                cr + 2 < MAX_DIM,
                2 <= cc,
                cc + 2 < MAX_DIM,
                forall|r: int, c: int|
                    0 <= r < MAX_DIM && 0 <= c < MAX_DIM ==> #[trigger] self.cells()[cell_index(
                        r,
                        c,
                    )] == if cr - 2 <= r < cr - 2 + i && cc - 2 <= c <= cc + 2 {
                        func_cell(alignment_dark(r - cr, c - cc))
                    } else {
                        g0[cell_index(r, c)]
                    },
        {
            for j in 0..5usize
                invariant
                    self.wf(),
                    self.spec_version() == old(self).spec_version(),
                    i < 5,
                    2 <= cr,
                    cr + 2 < MAX_DIM,
                    2 <= cc,
                    cc + 2 < MAX_DIM,
                    forall|r: int, c: int|
                        0 <= r < MAX_DIM && 0 <= c < MAX_DIM ==> #[trigger] self.cells()[cell_index(
                            r,
                            c,
                        )] == if (cr - 2 <= r < cr - 2 + i && cc - 2 <= c <= cc + 2) || (r == cr
                            - 2 + i && cc - 2 <= c < cc - 2 + j) {
                            func_cell(alignment_dark(r - cr, c - cc))
                        } else {
                            g0[cell_index(r, c)]
                        },
            {
                let r = cr + i - 2;
                let c = cc + j - 2;
                let dark = i == 0 || i == 4 || j == 0 || j == 4 || (i == 2 && j == 2);
                self.set_func(r, c, dark);
                proof {
                    lemma_cell_index_injective();
                }
            }
        }
    }

    /// Build the interleaved sequence of data and error-correction codewords.
    /// Returns the number of codewords written into `out`.
    fn build_codewords(&self, data: &[u8], out: &mut [u8]) -> (n: usize)
        requires
            self.wf(),
            data@.len() <= capacity(self.spec_version()),
            old(out)@.len() >= 134,
        ensures
            final(out)@.len() == old(out)@.len(),
            n == codeword_count(self.spec_version()),
            n <= 134,
            final(out)@.subrange(0, n as int) == codewords(data@, self.spec_version()),
    {
        let ghost v = self.spec_version();
        let (_, data_cw_total, ec_per_block, num_blocks) = version_table(self.version);
        let data_cw_total = data_cw_total as usize;
        let ec_per_block = ec_per_block as usize;
        let num_blocks = num_blocks as usize;

        // Step 1: the byte-mode segment, terminator and padding.
        let data_buf = segment_codewords(data, data_cw_total);
        let ghost dcw = data_codewords(data@, data_cw_total as int);

        // Step 2: split the data codewords into blocks and compute each block's EC.
        let base_data_per_block = data_cw_total / num_blocks;
        let extra_blocks = data_cw_total % num_blocks;
        let max_block_data = base_data_per_block + if extra_blocks > 0 {
            1
        } else {
            0
        };
        proof {
            lemma_version_shape(v);
        }
        let mut block_data = [[0u8; 44]; 2];
        let mut block_ec = [[0u8; 26]; 2];
        let mut block_sizes = [0usize; 2];
        let gf = Gf::new();
        let mut gen = [0u8; 26];
        rs_divisor(ec_per_block, &gf, &mut gen);
        let ghost divisor = generator_poly(ec_per_block as nat).drop_first();
        assert(gen@.subrange(0, ec_per_block as int) == divisor);
        let mut data_offset: usize = 0;
        proof {
            lemma_mul_upto_two(0, base_data_per_block as int);
        }
        for b in 0..num_blocks
            invariant
                1 <= v <= 5,
                1 <= num_blocks <= 2,
                num_blocks == version_params(v).3,
                base_data_per_block == version_params(v).1 / version_params(v).3,
                base_data_per_block * num_blocks == data_cw_total,
                extra_blocks == 0,
                base_data_per_block <= 44,
                ec_per_block == version_params(v).2,
                1 <= ec_per_block <= 26,
                data_cw_total == version_params(v).1,
                data_cw_total <= 86,
                data_offset == b * base_data_per_block,
                data_buf@.subrange(0, data_cw_total as int) == dcw,
                dcw == data_codewords(data@, data_cw_total as int),
                gen@.subrange(0, ec_per_block as int) == divisor,
                divisor == generator_poly(ec_per_block as nat).drop_first(),
                forall|bb: int| 0 <= bb < b ==> #[trigger] block_sizes@[bb] == base_data_per_block,
                forall|bb: int|
                    0 <= bb < b ==> (#[trigger] block_data@[bb])@.subrange(
                        0,
                        base_data_per_block as int,
                    ) == data_block(data@, v, bb),
                forall|bb: int|
                    0 <= bb < b ==> (#[trigger] block_ec@[bb])@.subrange(0, ec_per_block as int)
                        == ec_block(data@, v, bb),
        {
            let this_block_data = base_data_per_block + if b < extra_blocks {
                1
            } else {
                0
            };
            block_sizes[b] = this_block_data;
            proof {
                lemma_mul_upto_two(b as int, base_data_per_block as int);
                lemma_mul_upto_two(b + 1, base_data_per_block as int);
                lemma_mul_upto_two(num_blocks as int, base_data_per_block as int);
                assert(data_offset + this_block_data <= data_cw_total) by (nonlinear_arith)
                    requires
                        data_offset == b * base_data_per_block,
                        this_block_data == base_data_per_block,
                        b < num_blocks,
                        base_data_per_block * num_blocks == data_cw_total,
                ;
            }
            let mut blk = [0u8; 44];
            for i in 0..this_block_data
                invariant
                    this_block_data == base_data_per_block <= 44,
                    data_offset + this_block_data <= data_cw_total <= 86,
                    forall|t: int| 0 <= t < i ==> blk@[t] == data_buf@[data_offset + t],
            {
                blk[i] = data_buf[data_offset + i];
            }
            data_offset += this_block_data;
            let mut rem = [0u8; 26];
            rs_remainder(
                vstd::slice::slice_subrange(blk.as_slice(), 0, this_block_data),
                vstd::slice::slice_subrange(gen.as_slice(), 0, ec_per_block),
                &gf,
                &mut rem,
            );
            let mut ecb = [0u8; 26];
            for i in 0..ec_per_block
                invariant
                    ec_per_block <= 26,
                    forall|t: int| 0 <= t < i ==> ecb@[t] == rem@[t],
            {
                ecb[i] = rem[i];
            }
            proof {
                let lo = b * base_data_per_block;
                assert(blk@.subrange(0, this_block_data as int) =~= dcw.subrange(
                    lo,
                    lo + base_data_per_block,
                ));
                let bs = version_params(v).1 / version_params(v).3;
                assert(bs == base_data_per_block);
                assert(lo == b * bs);
                assert(dcw == data_codewords(data@, version_params(v).1));
                assert(data_block(data@, v, b as int) == data_codewords(data@, version_params(v).1).subrange(b * bs, b * bs + bs));
                assert(blk@.subrange(0, this_block_data as int) =~= data_block(data@, v, b as int));
                assert(ecb@.subrange(0, ec_per_block as int) =~= rem@.subrange(
                    0,
                    ec_per_block as int,
                ));
            }
            block_data[b] = blk;
            block_ec[b] = ecb;
        }

        // Step 3: interleave the blocks.
        let mut idx = 0usize;
        proof {
            lemma_mul_upto_two(num_blocks as int, 0);
        }
        for i in 0..max_block_data
            invariant
                1 <= v <= 5,
                1 <= num_blocks <= 2,
                num_blocks == version_params(v).3,
                max_block_data == base_data_per_block,
                base_data_per_block == version_params(v).1 / version_params(v).3,
                base_data_per_block * num_blocks == data_cw_total,
                data_cw_total == version_params(v).1,
                base_data_per_block <= 44,
                idx == i * num_blocks,
                out@.len() == old(out)@.len(),
                out@.len() >= 134,
                forall|bb: int| 0 <= bb < num_blocks ==> #[trigger] block_sizes@[bb] == base_data_per_block,
                forall|bb: int|
                    0 <= bb < num_blocks ==> (#[trigger] block_data@[bb])@.subrange(
                        0,
                        base_data_per_block as int,
                    ) == data_block(data@, v, bb),
                forall|k: int| 0 <= k < idx ==> out@[k] == codewords(data@, v)[k],
        {
            for b in 0..num_blocks
                invariant
                    1 <= v <= 5,
                    1 <= num_blocks <= 2,
                    num_blocks == version_params(v).3,
                    i < max_block_data,
                    max_block_data == base_data_per_block,
                    base_data_per_block == version_params(v).1 / version_params(v).3,
                    base_data_per_block * num_blocks == data_cw_total,
                    data_cw_total == version_params(v).1,
                    base_data_per_block <= 44,
                    idx == i * num_blocks + b,
                    out@.len() == old(out)@.len(),
                    out@.len() >= 134,
                    forall|bb: int| 0 <= bb < num_blocks ==> #[trigger] block_sizes@[bb] == base_data_per_block,
                    forall|bb: int|
                        0 <= bb < num_blocks ==> (#[trigger] block_data@[bb])@.subrange(
                            0,
                            base_data_per_block as int,
                        ) == data_block(data@, v, bb),
                    forall|k: int| 0 <= k < idx ==> out@[k] == codewords(data@, v)[k],
            {
                if i < block_sizes[b] {
                    proof {
                        lemma_mul_upto_two(num_blocks as int, i as int);
                        lemma_mul_upto_two(num_blocks as int, base_data_per_block as int);
                        lemma_codewords_data_at(data@, v, i as int, b as int);
                        assert(block_data@[b as int]@.subrange(0, base_data_per_block as int)[i as int]
                            == block_data@[b as int]@[i as int]);
                    }
                    out[idx] = block_data[b][i];
                    idx += 1;
                }
            }
            proof {
                lemma_mul_upto_two(num_blocks as int, i as int);
                lemma_mul_upto_two(num_blocks as int, i + 1);
            }
        }
        proof {
            lemma_mul_upto_two(num_blocks as int, base_data_per_block as int);
        }
        for i in 0..ec_per_block
            invariant
                1 <= v <= 5,
                data_cw_total + ec_per_block * num_blocks <= 134,
                1 <= num_blocks <= 2,
                num_blocks == version_params(v).3,
                ec_per_block == version_params(v).2,
                data_cw_total == version_params(v).1,
                1 <= ec_per_block <= 26,
                idx == data_cw_total + i * num_blocks,
                out@.len() == old(out)@.len(),
                out@.len() >= 134,
                forall|bb: int|
                    0 <= bb < num_blocks ==> (#[trigger] block_ec@[bb])@.subrange(0, ec_per_block as int)
                        == ec_block(data@, v, bb),
                forall|k: int| 0 <= k < idx ==> out@[k] == codewords(data@, v)[k],
        {
            for b in 0..num_blocks
                invariant
                    1 <= v <= 5,
                    data_cw_total + ec_per_block * num_blocks <= 134,
                    1 <= num_blocks <= 2,
                    num_blocks == version_params(v).3,
                    ec_per_block == version_params(v).2,
                    data_cw_total == version_params(v).1,
                    1 <= ec_per_block <= 26,
                    i < ec_per_block,
                    idx == data_cw_total + i * num_blocks + b,
                    out@.len() == old(out)@.len(),
                    out@.len() >= 134,
                    forall|bb: int|
                        0 <= bb < num_blocks ==> (#[trigger] block_ec@[bb])@.subrange(
                            0,
                            ec_per_block as int,
                        ) == ec_block(data@, v, bb),
                    forall|k: int| 0 <= k < idx ==> out@[k] == codewords(data@, v)[k],
            {
                proof {
                    lemma_mul_upto_two(num_blocks as int, i as int);
                    lemma_mul_upto_two(num_blocks as int, ec_per_block as int);
                    lemma_codewords_ec_at(data@, v, i as int, b as int);
                    assert(block_ec@[b as int]@.subrange(0, ec_per_block as int)[i as int]
                        == block_ec@[b as int]@[i as int]);
                }
                out[idx] = block_ec[b][i];
                idx += 1;
            }
            proof {
                lemma_mul_upto_two(num_blocks as int, i as int);
                lemma_mul_upto_two(num_blocks as int, i + 1);
            }
        }
        proof {
            lemma_codewords_len(data@, v);
            assert(out@.subrange(0, idx as int) =~= codewords(data@, v));
        }
        idx
    }

    /// Place all function patterns: finders with separators, timing patterns,
    /// alignment pattern and the dark module.
    fn draw_function_patterns(&mut self)
        requires
            old(self).wf(),
        ensures
            final(self).wf(),
            final(self).spec_version() == old(self).spec_version(),
            final(self).cells() == patterned_grid(old(self).cells(), old(self).spec_version()),
    {
        let ghost g0 = self.cells();
        let ghost v = self.spec_version();
        let size = self.size as usize;
        self.draw_finder(0, 0);
        self.draw_finder(0, size - 7);
        self.draw_finder(size - 7, 0);
        let ghost g1 = self.cells();
        for i in 8..size - 8
            invariant
                self.wf(),
                size == self.spec_size(),
                self.spec_version() == v,
                forall|r: int, c: int|
                    0 <= r < MAX_DIM && 0 <= c < MAX_DIM ==> #[trigger] self.cells()[cell_index(r, c)]
                        == if r == 6 && 8 <= c < i {
                        func_cell(c % 2 == 0)
                    } else if c == 6 && 8 <= r < i {
                        func_cell(r % 2 == 0)
                    } else {
                        g1[cell_index(r, c)]
                    },
        {
            let dark = i % 2 == 0;
            self.set_func(6, i, dark);
            self.set_func(i, 6, dark);
            proof {
                lemma_cell_index_injective();
            }
        }
        let ghost g2 = self.cells();
        let (n, positions) = alignment_positions(self.version);
        let ghost pp = (17 + 4 * v) - 7;
        for a in 0..n
            invariant
                self.wf(),
                size == self.spec_size(),
                self.spec_version() == v,
                n == 0 || n == 2,
                n == 2 ==> positions[0] == 6 && positions[1] == pp && v >= 2,
                pp == size - 7,
                a <= n,
                forall|r: int, c: int|
                    0 <= r < MAX_DIM && 0 <= c < MAX_DIM ==> #[trigger] self.cells()[cell_index(r, c)]
                        == if a == 2 && pp - 2 <= r <= pp + 2 && pp - 2 <= c <= pp + 2 {
                        func_cell(alignment_dark(r - pp, c - pp))
                    } else {
                        g2[cell_index(r, c)]
                    },
        {
            for b in 0..n
                invariant
                    self.wf(),
                    size == self.spec_size(),
                    self.spec_version() == v,
                    n == 2,
                    positions[0] == 6 && positions[1] == pp && v >= 2,
                    pp == size - 7,
                    a < 2,
                    forall|r: int, c: int|
                        0 <= r < MAX_DIM && 0 <= c < MAX_DIM ==> #[trigger] self.cells()[cell_index(
                            r,
                            c,
                        )] == if a == 1 && b == 2 && pp - 2 <= r <= pp + 2 && pp - 2 <= c <= pp + 2 {
                            func_cell(alignment_dark(r - pp, c - pp))
                        } else {
                            g2[cell_index(r, c)]
                        },
            {
                let r = positions[a] as usize;
                let c = positions[b] as usize;
                if !self.is_finder_region(r, c) {
                    self.draw_alignment(r, c);
                }
            }
        }
        let dark_row = 4 * (self.version as usize) + 9;
        self.set_func(dark_row, 8, true);
        proof {
            lemma_cell_index_injective();
            assert forall|r: int, c: int|
                0 <= r < MAX_DIM && 0 <= c < MAX_DIM implies #[trigger] self.cells()[cell_index(r, c)]
                == patterned_grid(g0, v)[cell_index(r, c)] by {
                lemma_cell_index(r, c);
            }
            lemma_grid_ext(self.cells(), patterned_grid(g0, v));
        }
    }

    /// Mark the two format-information strips as function modules.
    fn reserve_format_areas(&mut self)
        requires
            old(self).wf(),
        ensures
            final(self).wf(),
            final(self).spec_version() == old(self).spec_version(),
            final(self).cells() == reserved_grid(old(self).cells(), old(self).spec_size()),
    {
        proof {
            lemma_cell_bits();
        }
        let ghost g0 = self.cells();
        let ghost v = self.spec_version();
        let size = self.size as usize;
        for col in 0..9usize
            invariant
                self.wf(),
                size == self.spec_size(),
                self.spec_version() == v,
                forall|r: int, c: int|
                    0 <= r < MAX_DIM && 0 <= c < MAX_DIM ==> #[trigger] self.cells()[cell_index(r, c)]
                        == if r == 8 && 0 <= c < col && c != 6 {
                        g0[cell_index(r, c)] | FUNC
                    } else {
                        g0[cell_index(r, c)]
                    },
        {
            if col != 6 {
                let cur = self.get(8, col);
                self.set(8, col, cur | FUNC);
            }
            proof {
                lemma_cell_index_injective();
                lemma_cell_bits();
            }
        }
        for row in 0..9usize
            invariant
                self.wf(),
                size == self.spec_size(),
                self.spec_version() == v,
                forall|r: int, c: int|
                    0 <= r < MAX_DIM && 0 <= c < MAX_DIM ==> #[trigger] self.cells()[cell_index(r, c)]
                        == if (r == 8 && 0 <= c <= 8 && c != 6) || (c == 8 && 0 <= r < row && r
                        != 6) {
                        g0[cell_index(r, c)] | FUNC
                    } else {
                        g0[cell_index(r, c)]
                    },
        {
            if row != 6 {
                let cur = self.get(row, 8);
                self.set(row, 8, cur | FUNC);
            }
            proof {
                lemma_cell_index_injective();
                lemma_cell_bits();
            }
        }
        for i in 0..8usize
            invariant
                self.wf(),
                size == self.spec_size(),
                self.spec_version() == v,
                forall|r: int, c: int|
                    0 <= r < MAX_DIM && 0 <= c < MAX_DIM ==> #[trigger] self.cells()[cell_index(r, c)]
                        == if (r == 8 && 0 <= c <= 8 && c != 6) || (c == 8 && 0 <= r <= 8 && r != 6)
                        || (c == 8 && size - i <= r < size) {
                        g0[cell_index(r, c)] | FUNC
                    } else {
                        g0[cell_index(r, c)]
                    },
        {
            let cur = self.get(size - 1 - i, 8);
            self.set(size - 1 - i, 8, cur | FUNC);
            proof {
                lemma_cell_index_injective();
                lemma_cell_bits();
            }
        }
        for i in 0..8usize
            invariant
                self.wf(),
                size == self.spec_size(),
                self.spec_version() == v,
                forall|r: int, c: int|
                    0 <= r < MAX_DIM && 0 <= c < MAX_DIM ==> #[trigger] self.cells()[cell_index(r, c)]
                        == if (r == 8 && 0 <= c <= 8 && c != 6) || (c == 8 && 0 <= r <= 8 && r != 6)
                        || (c == 8 && size - 8 <= r < size) || (r == 8 && size - 8 <= c < size - 8
                        + i) {
                        g0[cell_index(r, c)] | FUNC
                    } else {
                        g0[cell_index(r, c)]
                    },
        {
            let cur = self.get(8, size - 8 + i);
            self.set(8, size - 8 + i, cur | FUNC);
            proof {
                lemma_cell_index_injective();
                lemma_cell_bits();
            }
        }
        proof {
            assert forall|r: int, c: int|
                0 <= r < MAX_DIM && 0 <= c < MAX_DIM implies #[trigger] self.cells()[cell_index(r, c)]
                == reserved_grid(g0, size as int)[cell_index(r, c)] by {
                lemma_cell_index(r, c);
            }
            lemma_grid_ext(self.cells(), reserved_grid(g0, size as int));
        }
    }

    /// Write the format information of `mask` into both copies.
    #[verifier::rlimit(80)]
    #[verifier::spinoff_prover]
    fn draw_format_bits(&mut self, mask: u8)
        requires
            old(self).wf(),
            mask < 8,
        ensures
            final(self).wf(),
            final(self).spec_version() == old(self).spec_version(),
            final(self).cells() == formatted_grid(
                old(self).cells(),
                old(self).spec_size(),
                mask as int,
            ),
    {
        let ghost g0 = self.cells();
        let ghost v = self.spec_version();
        let size = self.size as usize;
        let bits = format_bits_ecc_m(mask);
        let ghost w = format_word(mask as int);
        // First copy: row 8 (columns 0-5, 7, 8), then column 8 (rows 7, 5-0).
        proof {
            lemma_format_partial_start(g0, size as int, w);
        }
        let ghost prev = self.cells();
        self.set_func(8, 0, (bits >> 0u16) & 1 != 0);
        proof {
            lemma_format_partial_step(prev, g0, size as int, w, 0, 8, 0);
        }
        let ghost prev = self.cells();
        self.set_func(8, 1, (bits >> 1u16) & 1 != 0);
        proof {
            lemma_format_partial_step(prev, g0, size as int, w, 1, 8, 1);
        }
        let ghost prev = self.cells();
        self.set_func(8, 2, (bits >> 2u16) & 1 != 0);
        proof {
            lemma_format_partial_step(prev, g0, size as int, w, 2, 8, 2);
        }
        let ghost prev = self.cells();
        self.set_func(8, 3, (bits >> 3u16) & 1 != 0);
        proof {
            lemma_format_partial_step(prev, g0, size as int, w, 3, 8, 3);
        }
        let ghost prev = self.cells();
        self.set_func(8, 4, (bits >> 4u16) & 1 != 0);
        proof {
            lemma_format_partial_step(prev, g0, size as int, w, 4, 8, 4);
        }
        let ghost prev = self.cells();
        self.set_func(8, 5, (bits >> 5u16) & 1 != 0);
        proof {
            lemma_format_partial_step(prev, g0, size as int, w, 5, 8, 5);
        }
        let ghost prev = self.cells();
        self.set_func(8, 7, (bits >> 6u16) & 1 != 0);
        proof {
            lemma_format_partial_step(prev, g0, size as int, w, 6, 8, 7);
        }
        let ghost prev = self.cells();
        self.set_func(8, 8, (bits >> 7u16) & 1 != 0);
        proof {
            lemma_format_partial_step(prev, g0, size as int, w, 7, 8, 8);
        }
        let ghost prev = self.cells();
        self.set_func(7, 8, (bits >> 8u16) & 1 != 0);
        proof {
            lemma_format_partial_step(prev, g0, size as int, w, 8, 7, 8);
        }
        let ghost prev = self.cells();
        self.set_func(5, 8, (bits >> 9u16) & 1 != 0);
        proof {
            lemma_format_partial_step(prev, g0, size as int, w, 9, 5, 8);
        }
        let ghost prev = self.cells();
        self.set_func(4, 8, (bits >> 10u16) & 1 != 0);
        proof {
            lemma_format_partial_step(prev, g0, size as int, w, 10, 4, 8);
        }
        let ghost prev = self.cells();
        self.set_func(3, 8, (bits >> 11u16) & 1 != 0);
        proof {
            lemma_format_partial_step(prev, g0, size as int, w, 11, 3, 8);
        }
        let ghost prev = self.cells();
        self.set_func(2, 8, (bits >> 12u16) & 1 != 0);
        proof {
            lemma_format_partial_step(prev, g0, size as int, w, 12, 2, 8);
        }
        let ghost prev = self.cells();
        self.set_func(1, 8, (bits >> 13u16) & 1 != 0);
        proof {
            lemma_format_partial_step(prev, g0, size as int, w, 13, 1, 8);
        }
        let ghost prev = self.cells();
        self.set_func(0, 8, (bits >> 14u16) & 1 != 0);
        proof {
            lemma_format_partial_step(prev, g0, size as int, w, 14, 0, 8);
        }
        proof {
            assert forall|r: int, c: int|
                0 <= r < MAX_DIM && 0 <= c < MAX_DIM implies #[trigger] self.cells()[cell_index(r, c)]
                == if r <= 8 && c <= 8 && format_position(size as int, r, c) is Some {
                func_cell(format_bit(w, format_position(size as int, r, c)->0))
            } else {
                g0[cell_index(r, c)]
            } by {
                assert(format_partial(self.cells(), g0, size as int, w, 15));
            }
        }
        // Second copy: column 8 from the bottom (bits 0-6), row 8 on the right
        // (bits 7-14); the dark module at (size - 8, 8) stays as it is.
        for i in 0..7usize
            invariant
                self.wf(),
                size == self.spec_size(),
                self.spec_version() == v,
                bits == w,
                forall|r: int, c: int|
                    0 <= r < MAX_DIM && 0 <= c < MAX_DIM ==> #[trigger] self.cells()[cell_index(r, c)]
                        == if (r <= 8 && c <= 8 && format_position(size as int, r, c) is Some) || (c
                        == 8 && size - i <= r < size) {
                        func_cell(format_bit(w, format_position(size as int, r, c)->0))
                    } else {
                        g0[cell_index(r, c)]
                    },
        {
            self.set_func(size - 1 - i, 8, (bits >> (i as u16)) & 1 != 0);
            proof {
                lemma_cell_index_injective();
            }
        }
        for i in 7..15usize
            invariant
                self.wf(),
                size == self.spec_size(),
                self.spec_version() == v,
                bits == w,
                forall|r: int, c: int|
                    0 <= r < MAX_DIM && 0 <= c < MAX_DIM ==> #[trigger] self.cells()[cell_index(r, c)]
                        == if (r <= 8 && c <= 8 && format_position(size as int, r, c) is Some) || (c
                        == 8 && size - 7 <= r < size) || (r == 8 && size - 8 <= c < size - 15 + i) {
                        func_cell(format_bit(w, format_position(size as int, r, c)->0))
                    } else {
                        g0[cell_index(r, c)]
                    },
        {
            self.set_func(8, size - 15 + i, (bits >> (i as u16)) & 1 != 0);
            proof {
                lemma_cell_index_injective();
            }
        }
        proof {
            assert forall|r: int, c: int|
                0 <= r < MAX_DIM && 0 <= c < MAX_DIM implies #[trigger] self.cells()[cell_index(r, c)]
                == formatted_grid(g0, size as int, mask as int)[cell_index(r, c)] by {
                lemma_cell_index(r, c);
            }
            lemma_grid_ext(self.cells(), formatted_grid(g0, size as int, mask as int));
        }
    }

    /// Penalty of the grid with `mask` applied, computed on a temporary copy.
    fn penalty_score(&self, mask: u8) -> (p: u32)
        requires
            self.wf(),
        ensures
            p as int == penalty(masked_grid(self.cells(), self.spec_size(), mask as int), self.spec_size()),
            p <= 200_000,
    {
        let size = self.size as usize;
        let mut tmp = QrCode { version: self.version, size: self.size, grid: self.grid };
        tmp.apply_mask(mask);
        let ghost t = tmp.grid@;
        let mut penalty = 0u32;
        // Rule 1: runs of five or more equally coloured modules in rows and columns.
        penalty += penalty_runs(&tmp.grid, size, true);
        penalty += penalty_runs(&tmp.grid, size, false);
        // Rule 2: uniform 2 × 2 blocks.
        penalty += penalty_blocks(&tmp.grid, size);
        // Rule 3: finder-like patterns.
        if size >= 11 {
            penalty += penalty_finders(&tmp.grid, size, true);
            penalty += penalty_finders(&tmp.grid, size, false);
        }
        // Rule 4: proportion of dark modules.
        assert(21 * 21 <= size * size <= 37 * 37) by (nonlinear_arith)
            requires
                21 <= size <= 37,
        ;
        let total = (size * size) as u32;
        let dark_count = count_dark(&tmp.grid, size);
        proof {
            lemma_rule4_bound(dark_count as int, total as int);
        }
        let percent = dark_count * 100 / total;
        let prev5 = (percent / 5) * 5;
        let next5 = prev5 + 5;
        let dev_prev = if prev5 >= 50 { prev5 - 50 } else { 50 - prev5 };
        let dev_next = if next5 >= 50 { next5 - 50 } else { 50 - next5 };
        let dev = if dev_prev <= dev_next { dev_prev } else { dev_next };
        penalty += (dev / 5) * 10;
        penalty
    }

    /// Evaluate all 8 masks and return the first one with the lowest penalty.
    fn choose_mask(&self) -> (m: u8)
        requires
            self.wf(),
        ensures
            m == lowest_penalty_mask(self.cells(), self.spec_size(), 8),
            m < 8,
    {
        let mut best_mask = 0u8;
        let mut best_penalty = u32::MAX;
        for mask in 0u8..8
            invariant
                self.wf(),
                mask == 0 ==> best_penalty == u32::MAX && best_mask == 0,
                mask > 0 ==> best_mask == lowest_penalty_mask(self.cells(), self.spec_size(), mask as int)
                    && best_penalty as int == penalty(
                    masked_grid(self.cells(), self.spec_size(), best_mask as int),
                    self.spec_size(),
                ),
                best_mask < 8,
        {
            let p = self.penalty_score(mask);
            if p < best_penalty {
                best_penalty = p;
                best_mask = mask;
            }
        }
        best_mask
    }

    fn apply_mask(&mut self, mask: u8)
        requires
            old(self).wf(),
        ensures
            final(self).wf(),
            final(self).spec_version() == old(self).spec_version(),
            final(self).cells() == masked_grid(
                old(self).cells(),
                old(self).spec_size(),
                mask as int,
            ),
    {
        let ghost g0 = self.cells();
        let ghost target = masked_grid(g0, self.spec_size(), mask as int);
        let size = self.size as usize;
        for row in 0..size
            invariant
                self.wf(),
                size == self.spec_size(),
                self.spec_version() == old(self).spec_version(),
                g0 == old(self).cells(),
                target == masked_grid(g0, size as int, mask as int),
                forall|r: int, c: int|
                    0 <= r < MAX_DIM && 0 <= c < MAX_DIM ==> #[trigger] self.cells()[cell_index(r, c)]
                        == if r < row {
                        target[cell_index(r, c)]
                    } else {
                        g0[cell_index(r, c)]
                    },
        {
            for col in 0..size
                invariant
                    self.wf(),
                    size == self.spec_size(),
                    row < size,
                    self.spec_version() == old(self).spec_version(),
                    g0.len() == GRID_CELLS,
                    target == masked_grid(g0, size as int, mask as int),
                    forall|r: int, c: int|
                        0 <= r < MAX_DIM && 0 <= c < MAX_DIM ==> #[trigger] self.cells()[cell_index(
                            r,
                            c,
                        )] == if r < row || (r == row && c < col) {
                            target[cell_index(r, c)]
                        } else {
                            g0[cell_index(r, c)]
                        },
            {
                proof {
                    lemma_masked_grid_at(g0, size as int, mask as int, row as int, col as int);
                }
                let m = self.get(row, col);
                if m & FUNC == 0 && Self::mask_bit(mask, row, col) {
                    self.set(row, col, m ^ DARK);
                }
                proof {
                    lemma_cell_index_injective();
                }
            }
        }
        proof {
            lemma_grid_ext(self.cells(), target);
        }
    }
}

proof fn lemma_cell_index(r: int, c: int)
    requires
        0 <= r < MAX_DIM,
        0 <= c < MAX_DIM,
    ensures
        0 <= cell_index(r, c) < GRID_CELLS,
        cell_index(r, c) / MAX_DIM as int == r,
        cell_index(r, c) % MAX_DIM as int == c,
{
}

proof fn lemma_cell_index_injective()
    ensures
        forall|r1: int, c1: int, r2: int, c2: int|
            0 <= r1 < MAX_DIM && 0 <= c1 < MAX_DIM && 0 <= r2 < MAX_DIM && 0 <= c2 < MAX_DIM
                && #[trigger] cell_index(r1, c1) == #[trigger] cell_index(r2, c2) ==> r1 == r2 && c1
                == c2,
{
}

/// Two grids that agree on every `(row, col)` cell are equal.
proof fn lemma_grid_ext(a: Seq<u8>, b: Seq<u8>)
    requires
        a.len() == GRID_CELLS,
        b.len() == GRID_CELLS,
        forall|r: int, c: int|
            0 <= r < MAX_DIM && 0 <= c < MAX_DIM ==> #[trigger] a[cell_index(r, c)] == b[cell_index(
                r,
                c,
            )],
    ensures
        a == b,
{
    assert forall|i: int| 0 <= i < GRID_CELLS implies a[i] == b[i] by {
        let r = i / MAX_DIM as int;
        let c = i % MAX_DIM as int;
        assert(cell_index(r, c) == i);
        assert(a[cell_index(r, c)] == b[cell_index(r, c)]);
    }
    assert(a =~= b);
}

proof fn lemma_masked_grid_at(g: Seq<u8>, size: int, mask: int, r: int, c: int)
    requires
        g.len() == GRID_CELLS,
        0 <= r < MAX_DIM,
        0 <= c < MAX_DIM,
    ensures
        masked_grid(g, size, mask)[cell_index(r, c)] == if r < size && c < size && !is_func(
            g[cell_index(r, c)],
        ) && mask_condition(mask, r, c) {
            g[cell_index(r, c)] ^ DARK
        } else {
            g[cell_index(r, c)]
        },
{
    lemma_cell_index(r, c);
}

/// Alignment-pattern centre coordinates for a version (version 1 has none).
fn alignment_positions(version: u8) -> (r: (usize, [u8; 2]))
    requires
        1 <= version <= 5,
    ensures
        version == 1 ==> r.0 == 0,
        version >= 2 ==> r.0 == 2 && r.1[0] == 6 && r.1[1] == 17 + 4 * version - 7,
{
    match version {
        1 => (0, [0, 0]),
        2 => (2, [6, 18]),
        3 => (2, [6, 22]),
        4 => (2, [6, 26]),
        _ => (2, [6, 30]),
    }
}

/// The first `j` bits of the first format copy are written over `g0`.
spec fn format_partial(g: Seq<u8>, g0: Seq<u8>, size: int, w: u16, j: int) -> bool {
    &&& g.len() == GRID_CELLS
    &&& forall|r: int, c: int|
        0 <= r < MAX_DIM && 0 <= c < MAX_DIM ==> #[trigger] g[cell_index(r, c)] == if r <= 8 && c
            <= 8 && format_position(size, r, c) is Some && format_position(size, r, c)->0 < j {
            func_cell(format_bit(w, format_position(size, r, c)->0))
        } else {
            g0[cell_index(r, c)]
        }
}

proof fn lemma_format_partial_start(g0: Seq<u8>, size: int, w: u16)
    requires
        g0.len() == GRID_CELLS,
    ensures
        format_partial(g0, g0, size, w, 0),
{
}

proof fn lemma_format_partial_step(
    prev: Seq<u8>,
    g0: Seq<u8>,
    size: int,
    w: u16,
    j: int,
    r0: int,
    c0: int,
)
    requires
        format_partial(prev, g0, size, w, j),
        size >= 21,
        0 <= r0 <= 8,
        0 <= c0 <= 8,
        format_position(size, r0, c0) == Some(j),
    ensures
        format_partial(
            prev.update(cell_index(r0, c0), func_cell(format_bit(w, j))),
            g0,
            size,
            w,
            j + 1,
        ),
{
    lemma_cell_index_injective();
}

// ─────────────────────────────────────────────────────────────────────────
// Mask penalty (ISO/IEC 18004 rules 1–4)
// ─────────────────────────────────────────────────────────────────────────

/// Module `k` of line `line` of grid `t`: row `line` when `horizontal`, else column `line`.
pub open spec fn line_dark(t: Seq<u8>, line: int, k: int, horizontal: bool) -> bool {
    if horizontal {
        is_dark(t[cell_index(line, k)])
    } else {
        is_dark(t[cell_index(k, line)])
    }
}

/// Length of the run of equally coloured modules that ends at module `k` of a line.
pub open spec fn run_length(t: Seq<u8>, line: int, k: int, horizontal: bool) -> nat
    decreases k,
{
    if k <= 0 {
        1
    } else if line_dark(t, line, k, horizontal) == line_dark(t, line, k - 1, horizontal) {
        run_length(t, line, k - 1, horizontal) + 1
    } else {
        1
    }
}

/// Rule 1 points earned at a module whose run has length `n`.
pub open spec fn run_points(n: nat) -> int {
    if n == 5 {
        3
    } else if n > 5 {
        1
    } else {
        0
    }
}

/// Rule 1 points of the first `n` modules of a line.
pub open spec fn rule1_line(t: Seq<u8>, line: int, n: int, horizontal: bool) -> int
    decreases n,
{
    if n <= 0 {
        0
    } else {
        rule1_line(t, line, n - 1, horizontal) + run_points(run_length(t, line, n - 1, horizontal))
    }
}

/// Rule 1 points of the first `n` lines of a `size × size` symbol.
pub open spec fn rule1(t: Seq<u8>, size: int, n: int, horizontal: bool) -> int
    decreases n,
{
    if n <= 0 {
        0
    } else {
        rule1(t, size, n - 1, horizontal) + rule1_line(t, n - 1, size, horizontal)
    }
}

/// Whether the 2 × 2 block with top-left corner `(r, c)` has a single colour.
pub open spec fn uniform_block(t: Seq<u8>, r: int, c: int) -> bool {
    let d = is_dark(t[cell_index(r, c)]);
    d == is_dark(t[cell_index(r, c + 1)]) && d == is_dark(t[cell_index(r + 1, c)]) && d
        == is_dark(t[cell_index(r + 1, c + 1)])
}

/// Rule 2 points of the first `n` blocks of row `r`.
pub open spec fn rule2_row(t: Seq<u8>, r: int, n: int) -> int
    decreases n,
{
    if n <= 0 {
        0
    } else {
        rule2_row(t, r, n - 1) + if uniform_block(t, r, n - 1) {
            3int
        } else {
            0int
        }
    }
}

/// Rule 2 points of the first `n` block rows of a `size × size` symbol.
pub open spec fn rule2(t: Seq<u8>, size: int, n: int) -> int
    decreases n,
{
    if n <= 0 {
        0
    } else {
        rule2(t, size, n - 1) + rule2_row(t, n - 1, size - 1)
    }
}

/// Whether the 11 modules from module `k` of a line read 1011101 0000 or 0000 1011101.
pub open spec fn finder_like(t: Seq<u8>, line: int, k: int, horizontal: bool) -> bool {
    let w = |j: int| line_dark(t, line, k + j, horizontal);
    ||| (w(0) && !w(1) && w(2) && w(3) && w(4) && !w(5) && w(6) && !w(7) && !w(8) && !w(9)
        && !w(10))
    ||| (!w(0) && !w(1) && !w(2) && !w(3) && w(4) && !w(5) && w(6) && w(7) && w(8) && !w(9)
        && w(10))
}

/// Rule 3 points of the first `n` windows of a line.
pub open spec fn rule3_line(t: Seq<u8>, line: int, n: int, horizontal: bool) -> int
    decreases n,
{
    if n <= 0 {
        0
    } else {
        rule3_line(t, line, n - 1, horizontal) + if finder_like(t, line, n - 1, horizontal) {
            40int
        } else {
            0int
        }
    }
}

/// Rule 3 points of the first `n` lines of a `size × size` symbol.
pub open spec fn rule3(t: Seq<u8>, size: int, n: int, horizontal: bool) -> int
    decreases n,
{
    if n <= 0 {
        0
    } else {
        rule3(t, size, n - 1, horizontal) + rule3_line(t, n - 1, size - 10, horizontal)
    }
}

/// Number of dark modules among the first `n` modules of row `r`.
pub open spec fn dark_in_row(t: Seq<u8>, r: int, n: int) -> int
    decreases n,
{
    if n <= 0 {
        0
    } else {
        dark_in_row(t, r, n - 1) + if is_dark(t[cell_index(r, n - 1)]) {
            1int
        } else {
            0int
        }
    }
}

/// Number of dark modules in the first `n` rows of a `size × size` symbol.
pub open spec fn dark_total(t: Seq<u8>, size: int, n: int) -> int
    decreases n,
{
    if n <= 0 {
        0
    } else {
        dark_total(t, size, n - 1) + dark_in_row(t, n - 1, size)
    }
}

/// Rule 4: 10 points per 5 % of deviation of the dark proportion from 50 %.
pub open spec fn rule4(dark: int, total: int) -> int {
    let percent = dark * 100 / total;
    let prev5 = (percent / 5) * 5;
    let next5 = prev5 + 5;
    let dev_prev = if prev5 >= 50 { prev5 - 50 } else { 50 - prev5 };
    let dev_next = if next5 >= 50 { next5 - 50 } else { 50 - next5 };
    let dev = if dev_prev <= dev_next { dev_prev } else { dev_next };
    (dev / 5) * 10
}

/// Total penalty of a `size × size` symbol.
pub open spec fn penalty(t: Seq<u8>, size: int) -> int {
    rule1(t, size, size, true) + rule1(t, size, size, false) + rule2(t, size, size - 1) + (if size
        >= 11 {
        rule3(t, size, size, true) + rule3(t, size, size, false)
    } else {
        0
    }) + rule4(dark_total(t, size, size), size * size)
}

fn line_is_dark(t: &[u8; GRID_CELLS], line: usize, k: usize, horizontal: bool) -> (b: bool)
    requires
        line < MAX_DIM,
        k < MAX_DIM,
    ensures
        b == line_dark(t@, line as int, k as int, horizontal),
{
    if horizontal {
        t[line * MAX_DIM + k] & DARK != 0
    } else {
        t[k * MAX_DIM + line] & DARK != 0
    }
}

/// Rule 1 over all rows (`horizontal`) or all columns.
fn penalty_runs(t: &[u8; GRID_CELLS], size: usize, horizontal: bool) -> (p: u32)
    requires
        1 <= size <= MAX_DIM,
    ensures
        p as int == rule1(t@, size as int, size as int, horizontal),
        p <= 4107,
{
    let mut penalty: u32 = 0;
    for line in 0..size
        invariant
            1 <= size <= MAX_DIM,
            penalty as int == rule1(t@, size as int, line as int, horizontal),
            penalty <= 111 * line,
    {
        let mut run_dark = 0u32;
        let mut run_light = 0u32;
        let ghost base = penalty;
        for k in 0..size
            invariant
                1 <= size <= MAX_DIM,
                line < size,
                base as int == rule1(t@, size as int, line as int, horizontal),
                base <= 111 * line,
                penalty as int == base + rule1_line(t@, line as int, k as int, horizontal),
                penalty <= base + 3 * k,
                run_dark <= k,
                run_light <= k,
                k == 0 ==> run_dark == 0 && run_light == 0,
                k > 0 ==> run_dark == (if line_dark(t@, line as int, k - 1, horizontal) {
                    run_length(t@, line as int, k - 1, horizontal)
                } else {
                    0
                }),
                k > 0 ==> run_light == (if line_dark(t@, line as int, k - 1, horizontal) {
                    0
                } else {
                    run_length(t@, line as int, k - 1, horizontal)
                }),
        {
            if line_is_dark(t, line, k, horizontal) {
                run_dark += 1;
                run_light = 0;
            } else {
                run_light += 1;
                run_dark = 0;
            }
            if run_dark == 5 || run_light == 5 {
                penalty += 3;
            } else if run_dark > 5 || run_light > 5 {
                penalty += 1;
            }
        }
    }
    penalty
}

/// Rule 2: uniform 2 × 2 blocks.
fn penalty_blocks(t: &[u8; GRID_CELLS], size: usize) -> (p: u32)
    requires
        2 <= size <= MAX_DIM,
    ensures
        p as int == rule2(t@, size as int, size - 1),
        p <= 4107,
{
    let mut penalty: u32 = 0;
    for row in 0..size - 1
        invariant
            2 <= size <= MAX_DIM,
            penalty as int == rule2(t@, size as int, row as int),
            penalty <= 111 * row,
    {
        let ghost base = penalty;
        for col in 0..size - 1
            invariant
                2 <= size <= MAX_DIM,
                row < size - 1,
                base as int == rule2(t@, size as int, row as int),
                base <= 111 * row,
                penalty as int == base + rule2_row(t@, row as int, col as int),
                penalty <= base + 3 * col,
        {
            let tl = t[row * MAX_DIM + col] & DARK != 0;
            if tl == (t[row * MAX_DIM + col + 1] & DARK != 0) && tl == (t[(row + 1) * MAX_DIM + col]
                & DARK != 0) && tl == (t[(row + 1) * MAX_DIM + col + 1] & DARK != 0) {
                penalty += 3;
            }
        }
    }
    penalty
}

fn pattern_a() -> (p: [bool; 11])
    ensures
        p@ == seq![true, false, true, true, true, false, true, false, false, false, false],
{
    [true, false, true, true, true, false, true, false, false, false, false]
}

fn pattern_b() -> (p: [bool; 11])
    ensures
        p@ == seq![false, false, false, false, true, false, true, true, true, false, true],
{
    [false, false, false, false, true, false, true, true, true, false, true]
}

fn same_bools(a: &[bool; 11], b: &[bool; 11]) -> (r: bool)
    ensures
        r == (a@ == b@),
{
    for i in 0..11usize
        invariant
            forall|j: int| 0 <= j < i ==> a@[j] == b@[j],
    {
        if a[i] != b[i] {
            return false;
        }
    }
    assert(a@ =~= b@);
    true
}

/// Rule 3 over all rows (`horizontal`) or all columns.
fn penalty_finders(t: &[u8; GRID_CELLS], size: usize, horizontal: bool) -> (p: u32)
    requires
        11 <= size <= MAX_DIM,
    ensures
        p as int == rule3(t@, size as int, size as int, horizontal),
        p <= 54760,
{
    let pa = pattern_a();
    let pb = pattern_b();
    let mut penalty: u32 = 0;
    for line in 0..size
        invariant
            11 <= size <= MAX_DIM,
            pa@ == seq![true, false, true, true, true, false, true, false, false, false, false],
            pb@ == seq![false, false, false, false, true, false, true, true, true, false, true],
            penalty as int == rule3(t@, size as int, line as int, horizontal),
            penalty <= 1480 * line,
    {
        let ghost base = penalty;
        for k in 0..size - 10
            invariant
                11 <= size <= MAX_DIM,
                line < size,
                pa@ == seq![true, false, true, true, true, false, true, false, false, false, false],
                pb@ == seq![false, false, false, false, true, false, true, true, true, false, true],
                base as int == rule3(t@, size as int, line as int, horizontal),
                base <= 1480 * line,
                penalty as int == base + rule3_line(t@, line as int, k as int, horizontal),
                penalty <= base + 40 * k,
        {
            let mut seq = [false; 11];
            for j in 0..11usize
                invariant
                    k + 11 <= size <= MAX_DIM,
                    line < size,
                    forall|i: int| 0 <= i < j ==> seq@[i] == line_dark(t@, line as int, k + i, horizontal),
            {
                seq[j] = line_is_dark(t, line, k + j, horizontal);
            }
            proof {
                let w = |j: int| line_dark(t@, line as int, k + j, horizontal);
                assert(seq@ == pa@ <==> (w(0) && !w(1) && w(2) && w(3) && w(4) && !w(5) && w(6)
                    && !w(7) && !w(8) && !w(9) && !w(10))) by {
                    if w(0) && !w(1) && w(2) && w(3) && w(4) && !w(5) && w(6) && !w(7) && !w(8)
                        && !w(9) && !w(10) {
                        assert(seq@ =~= pa@);
                    }
                }
                assert(seq@ == pb@ <==> (!w(0) && !w(1) && !w(2) && !w(3) && w(4) && !w(5) && w(6)
                    && w(7) && w(8) && !w(9) && w(10))) by {
                    if !w(0) && !w(1) && !w(2) && !w(3) && w(4) && !w(5) && w(6) && w(7) && w(8)
                        && !w(9) && w(10) {
                        assert(seq@ =~= pb@);
                    }
                }
            }
            if same_bools(&seq, &pa) || same_bools(&seq, &pb) {
                penalty += 40;
            }
        }
    }
    penalty
}

/// Number of dark modules of the `size × size` symbol.
fn count_dark(t: &[u8; GRID_CELLS], size: usize) -> (n: u32)
    requires
        1 <= size <= MAX_DIM,
    ensures
        n as int == dark_total(t@, size as int, size as int),
        n <= 1369,
{
    let mut dark_count = 0u32;
    for r in 0..size
        invariant
            1 <= size <= MAX_DIM,
            dark_count as int == dark_total(t@, size as int, r as int),
            dark_count <= 37 * r,
    {
        let ghost base = dark_count;
        for c in 0..size
            invariant
                1 <= size <= MAX_DIM,
                r < size,
                base as int == dark_total(t@, size as int, r as int),
                base <= 37 * r,
                dark_count as int == base + dark_in_row(t@, r as int, c as int),
                dark_count <= base + c,
        {
            if t[r * MAX_DIM + c] & DARK != 0 {
                dark_count += 1;
            }
        }
    }
    dark_count
}

/// The first of masks `0 .. n` whose masked grid has the lowest penalty.
pub open spec fn lowest_penalty_mask(g: Seq<u8>, size: int, n: int) -> int
    decreases n,
{
    if n <= 1 {
        0
    } else {
        let b = lowest_penalty_mask(g, size, n - 1);
        if penalty(masked_grid(g, size, n - 1), size) < penalty(masked_grid(g, size, b), size) {
            n - 1
        } else {
            b
        }
    }
}

proof fn lemma_rule4_bound(dark: int, total: int)
    requires
        0 <= dark <= 1369,
        441 <= total,
    ensures
        0 <= dark * 100 / total <= 311,
        0 <= rule4(dark, total) <= 1000,
{
    assert(0 <= dark * 100 / total <= 311) by (nonlinear_arith)
        requires
            0 <= dark <= 1369,
            441 <= total,
    ;
}

// ─────────────────────────────────────────────────────────────────────────
// Data codewords: byte-mode segment, terminator and padding
// ─────────────────────────────────────────────────────────────────────────

/// Bit `p` (most significant bit first) of a byte sequence.
pub open spec fn bit_at(b: Seq<u8>, p: int) -> bool {
    (b[p / 8] >> ((7 - p % 8) as u8)) & 1u8 == 1u8
}

/// Bit `p` of the data bit stream of a byte-mode segment: mode indicator 0100,
/// 8-bit character count, the data bytes, a 4-bit terminator, then pad bytes
/// alternating 0xEC and 0x11.
pub open spec fn segment_bit(data: Seq<u8>, p: int) -> bool {
    let n = data.len() as int;
    if p < 4 {
        (4u32 >> ((3 - p) as u32)) & 1u32 == 1u32
    } else if p < 12 {
        ((n as u32) >> ((11 - p) as u32)) & 1u32 == 1u32
    } else if p < 12 + 8 * n {
        ((data[(p - 12) / 8] as u32) >> ((7 - (p - 12) % 8) as u32)) & 1u32 == 1u32
    } else if p < 16 + 8 * n {
        false
    } else {
        let pad: u32 = if ((p - 16 - 8 * n) / 8) % 2 == 0 {
            0xECu32
        } else {
            0x11u32
        };
        (pad >> ((7 - p % 8) as u32)) & 1u32 == 1u32
    }
}

/// The byte whose bits, most significant first, are `b0 … b7`.
pub open spec fn byte_of_bits(
    b0: bool,
    b1: bool,
    b2: bool,
    b3: bool,
    b4: bool,
    b5: bool,
    b6: bool,
    b7: bool,
) -> u8 {
    ((if b0 { 128u8 } else { 0u8 }) | (if b1 { 64u8 } else { 0u8 }) | (if b2 { 32u8 } else { 0u8 })
        | (if b3 { 16u8 } else { 0u8 }) | (if b4 { 8u8 } else { 0u8 }) | (if b5 { 4u8 } else { 0u8 })
        | (if b6 { 2u8 } else { 0u8 }) | (if b7 { 1u8 } else { 0u8 }))
}

/// The `ndc` data codewords of a byte-mode segment carrying `data`.
pub open spec fn data_codewords(data: Seq<u8>, ndc: int) -> Seq<u8> {
    Seq::new(
        ndc as nat,
        |i: int|
            byte_of_bits(
                segment_bit(data, 8 * i),
                segment_bit(data, 8 * i + 1),
                segment_bit(data, 8 * i + 2),
                segment_bit(data, 8 * i + 3),
                segment_bit(data, 8 * i + 4),
                segment_bit(data, 8 * i + 5),
                segment_bit(data, 8 * i + 6),
                segment_bit(data, 8 * i + 7),
            ),
    )
}

proof fn lemma_or_bit(b: u8, sj: u8, x: u8, sk: u8)
    requires
        sj < 8,
        sk < 8,
        x <= 1,
    ensures
        ((b | (x << sj)) >> sk) & 1u8 == if sk == sj {
            ((b >> sj) & 1u8) | x
        } else {
            (b >> sk) & 1u8
        },
        ((b >> sj) & 1u8) == 0 ==> (((b >> sj) & 1u8) | x) == x,
{
    assert(((b | (x << sj)) >> sk) & 1u8 == if sk == sj {
        ((b >> sj) & 1u8) | x
    } else {
        (b >> sk) & 1u8
    }) by (bit_vector)
        requires
            sj < 8,
            sk < 8,
            x <= 1,
    ;
    assert(((b >> sj) & 1u8) == 0 ==> (((b >> sj) & 1u8) | x) == x) by (bit_vector);
}

proof fn lemma_byte_bits(b: u8)
    ensures
        b == byte_of_bits(
            (b >> 7u8) & 1u8 == 1u8,
            (b >> 6u8) & 1u8 == 1u8,
            (b >> 5u8) & 1u8 == 1u8,
            (b >> 4u8) & 1u8 == 1u8,
            (b >> 3u8) & 1u8 == 1u8,
            (b >> 2u8) & 1u8 == 1u8,
            (b >> 1u8) & 1u8 == 1u8,
            (b >> 0u8) & 1u8 == 1u8,
        ),
{
    assert(b == byte_of_bits(
        (b >> 7u8) & 1u8 == 1u8,
        (b >> 6u8) & 1u8 == 1u8,
        (b >> 5u8) & 1u8 == 1u8,
        (b >> 4u8) & 1u8 == 1u8,
        (b >> 3u8) & 1u8 == 1u8,
        (b >> 2u8) & 1u8 == 1u8,
        (b >> 1u8) & 1u8 == 1u8,
        (b >> 0u8) & 1u8 == 1u8,
    )) by (bit_vector);
}

proof fn lemma_shift_facts()
    ensures
        forall|s: u32| #[trigger] ((0u32 >> s) & 1u32) != 1u32,
        forall|x: u32| #[trigger] (x & 1u32) <= 1,
        (0xECu8 ^ (0xECu8 ^ 0x11u8)) == 0x11u8,
        (0x11u8 ^ (0xECu8 ^ 0x11u8)) == 0xECu8,
        forall|y: u8| #[trigger] (y & 1u8) <= 1,
        forall|s: u8| #[trigger] ((0u8 >> s) & 1u8) != 1u8,
        byte_of_bits(false, false, false, false, false, false, false, false) == 0u8,
{
    assert(forall|s: u32| #[trigger] ((0u32 >> s) & 1u32) != 1u32) by (bit_vector);
    assert(forall|x: u32| #[trigger] (x & 1u32) <= 1) by (bit_vector);
    assert((0xECu8 ^ (0xECu8 ^ 0x11u8)) == 0x11u8 && (0x11u8 ^ (0xECu8 ^ 0x11u8)) == 0xECu8)
        by (bit_vector);
    assert(forall|y: u8| #[trigger] (y & 1u8) <= 1) by (bit_vector);
    assert(forall|s: u8| #[trigger] ((0u8 >> s) & 1u8) != 1u8) by (bit_vector);
    assert(byte_of_bits(false, false, false, false, false, false, false, false) == 0u8)
        by (bit_vector);
}

/// Append the `count` low bits of `value`, most significant first, at bit `*pos`.
fn write_bits(buf: &mut [u8; 86], pos: &mut usize, value: u32, count: usize)
    requires
        *old(pos) + count <= 688,
        count <= 32,
        forall|p: int| *old(pos) <= p < 688 ==> !bit_at(old(buf)@, p),
    ensures
        *final(pos) == *old(pos) + count,
        forall|p: int|
            0 <= p < 688 ==> #[trigger] bit_at(final(buf)@, p) == if *old(pos) <= p < *old(pos)
                + count {
                (value >> ((count - 1 - (p - *old(pos))) as u32)) & 1u32 == 1u32
            } else {
                bit_at(old(buf)@, p)
            },
{
    let ghost pos0 = *pos;
    let ghost buf0 = buf@;
    let mut i = count;
    while i > 0
        invariant
            i <= count <= 32,
            pos0 + count <= 688,
            *pos == pos0 + (count - i),
            forall|p: int| *pos <= p < 688 ==> !bit_at(buf@, p),
            forall|p: int|
                0 <= p < 688 ==> #[trigger] bit_at(buf@, p) == if pos0 <= p < *pos {
                    (value >> ((count - 1 - (p - pos0)) as u32)) & 1u32 == 1u32
                } else {
                    bit_at(buf0, p)
                },
        decreases i,
    {
        i -= 1;
        let bit = (value >> (i as u32)) & 1;
        let byte_idx = *pos / 8;
        let bit_idx = 7 - (*pos % 8);
        let ghost before = buf@;
        let ghost p0 = *pos as int;
        proof {
            lemma_shift_facts();
        }
        buf[byte_idx] = buf[byte_idx] | ((bit as u8) << (bit_idx as u8));
        *pos += 1;
        proof {
            assert(!bit_at(before, p0));
            assert(bit <= 1);
            assert forall|p: int| 0 <= p < 688 implies #[trigger] bit_at(buf@, p) == if p == p0 {
                bit == 1u32
            } else {
                bit_at(before, p)
            } by {
                if p / 8 == byte_idx {
                    lemma_or_bit(
                        before[byte_idx as int],
                        (7 - p0 % 8) as u8,
                        bit as u8,
                        (7 - p % 8) as u8,
                    );
                    if p == p0 {
                        assert(((before[byte_idx as int] >> ((7 - p0 % 8) as u8)) & 1u8) == 0);
                    } else {
                        assert(p % 8 != p0 % 8);
                    }
                } else {
                    assert(buf@[p / 8] == before[p / 8]);
                }
            }
        }
    }
}

spec fn segment_written(buf: Seq<u8>, data: Seq<u8>, upto: int) -> bool {
    forall|p: int|
        0 <= p < 688 ==> #[trigger] bit_at(buf, p) == if p < upto {
            segment_bit(data, p)
        } else {
            false
        }
}

/// Encode `data` in byte mode into `data_cw_total` data codewords (terminator and
/// padding included); the rest of the 86-byte buffer stays zero.
fn segment_codewords(data: &[u8], data_cw_total: usize) -> (buf: [u8; 86])
    requires
        data@.len() + 2 <= data_cw_total <= 86,
    ensures
        buf@.subrange(0, data_cw_total as int) == data_codewords(data@, data_cw_total as int),
        forall|i: int| data_cw_total <= i < 86 ==> buf@[i] == 0u8,
{
    let mut data_buf = [0u8; 86];
    let bit_capacity = data_cw_total * 8;
    let mut bit_pos = 0usize;
    let ghost n = data@.len() as int;
    proof {
        lemma_shift_facts();
        assert(segment_written(data_buf@, data@, 0));
    }
    // Mode indicator: 0100 = byte mode.
    write_bits(&mut data_buf, &mut bit_pos, 0b0100, 4);
    // Character count (8 bits for versions 1-9, byte mode).
    write_bits(&mut data_buf, &mut bit_pos, data.len() as u32, 8);
    assert(segment_written(data_buf@, data@, 12));
    // Data bytes.
    for k in 0..data.len()
        invariant
            n == data@.len(),
            n + 2 <= data_cw_total <= 86,
            bit_pos == 12 + 8 * k,
            segment_written(data_buf@, data@, bit_pos as int),
    {
        let ghost pos0 = bit_pos as int;
        write_bits(&mut data_buf, &mut bit_pos, data[k] as u32, 8);
        proof {
            assert forall|p: int| 0 <= p < 688 implies #[trigger] bit_at(data_buf@, p) == if p
                < bit_pos {
                segment_bit(data@, p)
            } else {
                false
            } by {
                if pos0 <= p < bit_pos {
                    assert((p - 12) / 8 == k);
                    assert((p - 12) % 8 == p - pos0);
                }
            }
        }
    }
    // Terminator (up to 4 zero bits).
    let remaining = bit_capacity - bit_pos;
    let term_bits = if remaining < 4 {
        remaining
    } else {
        4
    };
    write_bits(&mut data_buf, &mut bit_pos, 0, term_bits);
    proof {
        lemma_shift_facts();
        assert(segment_written(data_buf@, data@, bit_pos as int));
    }
    // Pad to a byte boundary.
    let pad_to_byte = (8 - bit_pos % 8) % 8;
    write_bits(&mut data_buf, &mut bit_pos, 0, pad_to_byte);
    // Pad codewords alternating 0xEC / 0x11.
    let mut pad_byte = 0xEC_u8;
    let ghost j: int = 0;
    while bit_pos < bit_capacity
        invariant
            n == data@.len(),
            n + 2 <= data_cw_total <= 86,
            bit_capacity == 8 * data_cw_total,
            j >= 0,
            bit_pos == 16 + 8 * n + 8 * j,
            bit_pos <= bit_capacity,
            pad_byte == if j % 2 == 0 {
                0xECu8
            } else {
                0x11u8
            },
            segment_written(data_buf@, data@, bit_pos as int),
        decreases bit_capacity - bit_pos,
    {
        let ghost pos0 = bit_pos as int;
        write_bits(&mut data_buf, &mut bit_pos, pad_byte as u32, 8);
        proof {
            assert forall|p: int| 0 <= p < 688 implies #[trigger] bit_at(data_buf@, p) == if p
                < bit_pos {
                segment_bit(data@, p)
            } else {
                false
            } by {
                if pos0 <= p < bit_pos {
                    assert((p - 16 - 8 * n) / 8 == j);
                    assert(p % 8 == p - pos0);
                    let pad: u32 = if j % 2 == 0 {
                        0xECu32
                    } else {
                        0x11u32
                    };
                    assert(pad == pad_byte as u32);
                }
            }
            lemma_shift_facts();
        }
        pad_byte ^= 0xEC ^ 0x11;
        proof {
            j = j + 1;
        }
    }
    proof {
        assert forall|i: int| 0 <= i < 86 implies #[trigger] data_buf@[i] == if i < data_cw_total {
            data_codewords(data@, data_cw_total as int)[i]
        } else {
            0u8
        } by {
            lemma_byte_bits(data_buf@[i]);
            assert(bit_at(data_buf@, 8 * i) == ((data_buf@[i] >> 7u8) & 1u8 == 1u8));
            assert(bit_at(data_buf@, 8 * i + 1) == ((data_buf@[i] >> 6u8) & 1u8 == 1u8));
            assert(bit_at(data_buf@, 8 * i + 2) == ((data_buf@[i] >> 5u8) & 1u8 == 1u8));
            assert(bit_at(data_buf@, 8 * i + 3) == ((data_buf@[i] >> 4u8) & 1u8 == 1u8));
            assert(bit_at(data_buf@, 8 * i + 4) == ((data_buf@[i] >> 3u8) & 1u8 == 1u8));
            assert(bit_at(data_buf@, 8 * i + 5) == ((data_buf@[i] >> 2u8) & 1u8 == 1u8));
            assert(bit_at(data_buf@, 8 * i + 6) == ((data_buf@[i] >> 1u8) & 1u8 == 1u8));
            assert(bit_at(data_buf@, 8 * i + 7) == ((data_buf@[i] >> 0u8) & 1u8 == 1u8));
        }
        assert(data_buf@.subrange(0, data_cw_total as int) =~= data_codewords(
            data@,
            data_cw_total as int,
        ));
    }
    data_buf
}

/// Data codewords of block `b` (all blocks have equal size for versions 1–5).
pub open spec fn data_block(data: Seq<u8>, version: int, b: int) -> Seq<u8> {
    let (_, ndc, _, nb) = version_params(version);
    let bs = ndc / nb;
    data_codewords(data, ndc).subrange(b * bs, b * bs + bs)
}

/// Error-correction codewords of block `b`.
pub open spec fn ec_block(data: Seq<u8>, version: int, b: int) -> Seq<u8> {
    let (_, _, ec, _) = version_params(version);
    rs_remainder_spec(data_block(data, version, b), generator_poly(ec as nat).drop_first())
}

/// Number of codewords (data and error correction) of a version.
pub open spec fn codeword_count(version: int) -> int {
    let (_, ndc, ec, nb) = version_params(version);
    ndc + nb * ec
}

/// The final codeword sequence: data codewords interleaved across blocks, then
/// error-correction codewords interleaved across blocks.
pub open spec fn codewords(data: Seq<u8>, version: int) -> Seq<u8> {
    let (_, ndc, ec, nb) = version_params(version);
    if nb == 1 {
        data_block(data, version, 0) + ec_block(data, version, 0)
    } else {
        Seq::new(
            (ndc + 2 * ec) as nat,
            |k: int|
                if k < ndc {
                    data_block(data, version, k % 2)[k / 2]
                } else {
                    ec_block(data, version, (k - ndc) % 2)[(k - ndc) / 2]
                },
        )
    }
}


proof fn lemma_ec_block_len(data: Seq<u8>, version: int, b: int)
    ensures
        ec_block(data, version, b).len() == version_params(version).2,
{
    let ec = version_params(version).2;
    lemma_generator_poly_len(ec as nat);
    lemma_rs_remainder_len(data_block(data, version, b), generator_poly(ec as nat).drop_first());
}

proof fn lemma_codewords_len(data: Seq<u8>, version: int)
    requires
        1 <= version <= 5,
    ensures
        codewords(data, version).len() == codeword_count(version),
{
    lemma_ec_block_len(data, version, 0);
}

proof fn lemma_codewords_data_at(data: Seq<u8>, version: int, i: int, b: int)
    requires
        1 <= version <= 5,
        0 <= b < version_params(version).3,
        0 <= i < version_params(version).1 / version_params(version).3,
    ensures
        codewords(data, version)[i * version_params(version).3 + b] == data_block(data, version, b)[i],
{
    lemma_ec_block_len(data, version, 0);
}

proof fn lemma_codewords_ec_at(data: Seq<u8>, version: int, i: int, b: int)
    requires
        1 <= version <= 5,
        0 <= b < version_params(version).3,
        0 <= i < version_params(version).2,
    ensures
        codewords(data, version)[version_params(version).1 + i * version_params(version).3 + b]
            == ec_block(data, version, b)[i],
{
    lemma_ec_block_len(data, version, 0);
    lemma_ec_block_len(data, version, b);
}

/// Products with a factor of at most two, written out.
proof fn lemma_mul_upto_two(a: int, x: int)
    by (nonlinear_arith)
    requires
        0 <= a <= 2,
    ensures
        a * x == (if a == 0 {
            0
        } else if a == 1 {
            x
        } else {
            2 * x
        }),
        x * a == a * x,
{
}

/// The block layout of every supported version: one or two equal blocks.
proof fn lemma_version_shape(version: int)
    requires
        1 <= version <= 5,
    ensures
        ({
            let (_, ndc, ec, nb) = version_params(version);
            &&& 1 <= nb <= 2
            &&& (ndc / nb) * nb == ndc
            &&& ndc % nb == 0
            &&& ndc / nb <= 44
            &&& 1 <= ec <= 26
            &&& ndc <= 86
            &&& ndc + ec * nb <= 134
        }),
{
}

/// Column of the right edge of the `j`-th two-column band of the zigzag
/// traversal, counted right to left; the vertical timing column 6 is stepped over.
pub open spec fn band_col(size: int, j: int) -> int {
    if size - 1 - 2 * j > 6 {
        size - 1 - 2 * j
    } else {
        size - 2 - 2 * j
    }
}

/// The `t`-th module position `(row, col)` of the zigzag traversal: bands of two
/// columns from right to left, alternately upward and downward, right column first.
pub open spec fn zigzag_pos(size: int, t: int) -> (int, int) {
    let j = t / (2 * size);
    let k = t % (2 * size);
    let row = if j % 2 == 0 {
        size - 1 - k / 2
    } else {
        k / 2
    };
    (row, band_col(size, j) - k % 2)
}

/// Bit `n` of a codeword stream, most significant bit of each codeword first;
/// every bit past the end of the stream is zero.
pub open spec fn stream_bit(cw: Seq<u8>, n: int) -> bool {
    n / 8 < cw.len() && (cw[n / 8] >> ((7 - n % 8) as u8)) & 1u8 != 0u8
}

/// The grid and the number of bits placed after the first `t` positions of the
/// traversal: each non-function module takes the next stream bit.
pub open spec fn place_state(g: Seq<u8>, size: int, cw: Seq<u8>, t: nat) -> (Seq<u8>, int)
    decreases t,
{
    if t == 0 {
        (g, 0)
    } else {
        let (g1, n) = place_state(g, size, cw, (t - 1) as nat);
        let (r, c) = zigzag_pos(size, t - 1);
        let i = cell_index(r, c);
        if !is_func(g1[i]) {
            (
                g1.update(
                    i,
                    if stream_bit(cw, n) {
                        DARK
                    } else {
                        0u8
                    },
                ),
                n + 1,
            )
        } else {
            (g1, n)
        }
    }
}

/// The grid after the whole traversal of a `size` × `size` symbol.
pub open spec fn placed_grid(g: Seq<u8>, size: int, cw: Seq<u8>) -> Seq<u8> {
    place_state(g, size, cw, ((size - 1) * size) as nat).0
}

proof fn lemma_band_col(size: int, j: int)
    requires
        21 <= size <= 37,
        size % 2 == 1,
        0 <= j <= (size - 1) / 2,
    ensures
        j < (size - 1) / 2 ==> 1 <= band_col(size, j) < size,
        j == (size - 1) / 2 ==> band_col(size, j) == -1,
        j < (size - 1) / 2 ==> (band_col(size, j) - 2 == band_col(size, j + 1) || (band_col(
            size,
            j,
        ) - 2 == 6 && band_col(size, j + 1) == 5)),
        band_col(size, j) != 6,
{
}

proof fn lemma_zigzag_at(size: int, j: int, ro: int, dc: int)
    requires
        1 <= size,
        0 <= j,
        0 <= ro < size,
        0 <= dc < 2,
    ensures
        zigzag_pos(size, j * (2 * size) + 2 * ro + dc) == (
            if j % 2 == 0 {
                size - 1 - ro
            } else {
                ro
            },
            band_col(size, j) - dc,
        ),
{
    let t = j * (2 * size) + 2 * ro + dc;
    vstd::arithmetic::div_mod::lemma_fundamental_div_mod_converse(t, 2 * size, j, 2 * ro + dc);
    vstd::arithmetic::div_mod::lemma_fundamental_div_mod_converse(2 * ro + dc, 2, ro, dc);
}

proof fn lemma_zigzag_total(size: int)
    requires
        21 <= size <= 37,
        size % 2 == 1,
    ensures
        ((size - 1) / 2) * (2 * size) == (size - 1) * size,
{
    assert(((size - 1) / 2) * 2 == size - 1);
    assert(((size - 1) / 2) * (2 * size) == (size - 1) * size) by (nonlinear_arith)
        requires
            ((size - 1) / 2) * 2 == size - 1,
    ;
}

/// The grid before anything is drawn: every module light and free.
pub open spec fn blank_grid() -> Seq<u8> {
    Seq::new(GRID_CELLS as nat, |i: int| 0u8)
}

/// The grid after function patterns, format reservation and codeword placement,
/// before masking.
pub open spec fn unmasked_grid(data: Seq<u8>, version: int) -> Seq<u8> {
    let size = 17 + 4 * version;
    placed_grid(
        reserved_grid(patterned_grid(blank_grid(), version), size),
        size,
        codewords(data, version),
    )
}

/// The finished symbol of `data` at `version`: the unmasked grid under the mask
/// of lowest penalty, with that mask's format information written.
pub open spec fn encoded_grid(data: Seq<u8>, version: int) -> Seq<u8> {
    let size = 17 + 4 * version;
    let g = unmasked_grid(data, version);
    let m = lowest_penalty_mask(g, size, 8);
    formatted_grid(masked_grid(g, size, m), size, m)
}

proof fn lemma_place_keeps_func(g: Seq<u8>, size: int, cw: Seq<u8>, t: nat)
    requires
        21 <= size <= 37,
        size % 2 == 1,
        t <= (size - 1) * size,
        g.len() == GRID_CELLS,
    ensures
        place_state(g, size, cw, t).0.len() == g.len(),
        forall|i: int|
            0 <= i < g.len() && is_func(g[i]) ==> #[trigger] place_state(g, size, cw, t).0[i] == g[i],
    decreases t,
{
    if t > 0 {
        lemma_place_keeps_func(g, size, cw, (t - 1) as nat);
        let t1 = t - 1;
        let j = t1 / (2 * size);
        let k = t1 % (2 * size);
        assert(0 <= k < 2 * size);
        assert(j * (2 * size) <= t1) by (nonlinear_arith)
            requires
                j == t1 / (2 * size),
                size > 0,
                t1 >= 0,
        ;
        assert(j < (size - 1) / 2) by (nonlinear_arith)
            requires
                j * (2 * size) <= t1,
                t1 < (size - 1) * size,
                size % 2 == 1,
                size > 0,
                j >= 0,
        {
            assert(((size - 1) / 2) * 2 == size - 1);
            if j >= (size - 1) / 2 {
                assert(j * (2 * size) >= ((size - 1) / 2) * (2 * size));
            }
        }
        lemma_band_col(size, j);
        lemma_cell_index(zigzag_pos(size, t1).0, zigzag_pos(size, t1).1);
    }
}

/// How many of the first `t` positions of the zigzag traversal of a
/// `size × size` symbol are data modules (not function modules) of `g`.
pub open spec fn data_positions_before(g: Seq<u8>, size: int, t: nat) -> nat
    decreases t,
{
    if t == 0 {
        0
    } else {
        let (r, c) = zigzag_pos(size, t - 1);
        data_positions_before(g, size, (t - 1) as nat) + if is_func(g[cell_index(r, c)]) {
            0nat
        } else {
            1nat
        }
    }
}

/// Every position of the traversal lies inside the symbol, and no position is
/// visited twice.
proof fn lemma_zigzag_in_range_and_distinct(size: int, t1: int, t2: int)
    requires
        21 <= size <= 37,
        size % 2 == 1,
        0 <= t1 < (size - 1) * size,
        0 <= t2 < (size - 1) * size,
    ensures
        0 <= zigzag_pos(size, t1).0 < size,
        0 <= zigzag_pos(size, t1).1 < size,
        t1 != t2 ==> zigzag_pos(size, t1) != zigzag_pos(size, t2),
{
    let m = 2 * size;
    let j1 = t1 / m;
    let k1 = t1 % m;
    let j2 = t2 / m;
    let k2 = t2 % m;
    vstd::arithmetic::div_mod::lemma_fundamental_div_mod(t1, m);
    vstd::arithmetic::div_mod::lemma_fundamental_div_mod(t2, m);
    lemma_zigzag_total(size);
    assert(0 <= j1 < (size - 1) / 2) by (nonlinear_arith)
        requires
            t1 == m * j1 + k1,
            0 <= k1 < m,
            0 <= t1 < ((size - 1) / 2) * m,
            m > 0,
    ;
    assert(0 <= j2 < (size - 1) / 2) by (nonlinear_arith)
        requires
            t2 == m * j2 + k2,
            0 <= k2 < m,
            0 <= t2 < ((size - 1) / 2) * m,
            m > 0,
    ;
    lemma_band_col(size, j1);
    lemma_band_col(size, j2);
    if t1 != t2 && zigzag_pos(size, t1) == zigzag_pos(size, t2) {
        if j1 == j2 {
            assert(k1 % 2 == k2 % 2);
            assert(k1 / 2 == k2 / 2);
            assert(k1 == k2);
        } else {
            assert(band_col(size, j1) - k1 % 2 != band_col(size, j2) - k2 % 2);
        }
    }
}

/// Placement fills the data modules in traversal order with the codeword
/// stream, each codeword most significant bit first: the `n`-th data module
/// met gets bit `7 - n % 8` of codeword `n / 8` (dark for a one), and light once
/// the codewords run out. Function modules are left as they are.
pub proof fn lemma_codeword_bits_msb_first(g: Seq<u8>, size: int, cw: Seq<u8>, t0: int)
    requires
        21 <= size <= 37,
        size % 2 == 1,
        g.len() == GRID_CELLS,
        0 <= t0 < (size - 1) * size,
        !is_func(g[cell_index(zigzag_pos(size, t0).0, zigzag_pos(size, t0).1)]),
    ensures
        ({
            let n = data_positions_before(g, size, t0 as nat) as int;
            let i = cell_index(zigzag_pos(size, t0).0, zigzag_pos(size, t0).1);
            is_dark(placed_grid(g, size, cw)[i]) == (n / 8 < cw.len() && (cw[n / 8] >> ((7 - n
                % 8) as u8)) & 1u8 == 1u8)
        }),
{
    lemma_zigzag_total(size);
    assert((size - 1) * size <= 36 * 37) by (nonlinear_arith)
        requires
            21 <= size <= 37,
    ;
    lemma_placement_prefix(g, size, cw, ((size - 1) * size) as nat);
    let n = data_positions_before(g, size, t0 as nat) as int;
    if n / 8 < cw.len() {
        let b = cw[n / 8];
        let k = (7 - n % 8) as u8;
        assert(k < 8);
        assert(((b >> k) & 1u8 != 0u8) == ((b >> k) & 1u8 == 1u8)) by (bit_vector);
    }
}

/// What the first `t` steps of placement have done: every data module met so
/// far holds its stream bit, no module's function flag changed, and the
/// number of bits used is the number of data modules met.
proof fn lemma_placement_prefix(g: Seq<u8>, size: int, cw: Seq<u8>, t: nat)
    requires
        21 <= size <= 37,
        size % 2 == 1,
        g.len() == GRID_CELLS,
        t <= (size - 1) * size,
    ensures
        place_state(g, size, cw, t).0.len() == g.len(),
        place_state(g, size, cw, t).1 == data_positions_before(g, size, t),
        forall|i: int|
            0 <= i < g.len() ==> is_func(#[trigger] place_state(g, size, cw, t).0[i]) == is_func(
                g[i],
            ),
        forall|t0: int|
            0 <= t0 < t && !is_func(g[cell_index(zigzag_pos(size, t0).0, zigzag_pos(size, t0).1)])
                ==> is_dark(
                #[trigger] place_state(g, size, cw, t).0[cell_index(
                    zigzag_pos(size, t0).0,
                    zigzag_pos(size, t0).1,
                )],
            ) == stream_bit(cw, data_positions_before(g, size, t0 as nat) as int),
    decreases t,
{
    lemma_cell_bits();
    if t > 0 {
        let t1 = (t - 1) as nat;
        lemma_placement_prefix(g, size, cw, t1);
        let (g1, n) = place_state(g, size, cw, t1);
        let (r, c) = zigzag_pos(size, t1 as int);
        lemma_zigzag_in_range_and_distinct(size, t1 as int, t1 as int);
        let i = cell_index(r, c);
        lemma_cell_index(r, c);
        lemma_cell_index_injective();
        let g2 = place_state(g, size, cw, t).0;
        assert(g1.len() == g.len());
        assert(is_func(g1[i]) == is_func(g[i]));
        assert forall|t0: int|
            0 <= t0 < t && !is_func(g[cell_index(zigzag_pos(size, t0).0, zigzag_pos(size, t0).1)])
                implies is_dark(
            #[trigger] g2[cell_index(zigzag_pos(size, t0).0, zigzag_pos(size, t0).1)],
        ) == stream_bit(cw, data_positions_before(g, size, t0 as nat) as int) by {
            if t0 < t1 {
                lemma_zigzag_in_range_and_distinct(size, t0, t1 as int);
                let (r0, c0) = zigzag_pos(size, t0);
                lemma_cell_index(r0, c0);
                assert(cell_index(r0, c0) != i);
            } else {
                assert(t0 == t1);
            }
        }
        assert forall|k: int| 0 <= k < g.len() implies is_func(#[trigger] g2[k]) == is_func(g[k]) by {
            if k == i && !is_func(g1[i]) {
            }
        }
    }
}

/// Every module of a function pattern that no format bit covers keeps its
/// colour in the finished symbol: finders, separators, timing and alignment
/// patterns and the dark module survive codeword placement and masking.
pub proof fn lemma_function_patterns_kept(data: Seq<u8>, version: int, r: int, c: int)
    requires
        1 <= version <= 5,
        0 <= r < 17 + 4 * version,
        0 <= c < 17 + 4 * version,
        function_pattern(version, r, c) is Some,
        format_position(17 + 4 * version, r, c) is None,
    ensures
        is_dark(encoded_grid(data, version)[cell_index(r, c)]) == function_pattern(
            version,
            r,
            c,
        )->0,
{
    let size = 17 + 4 * version;
    let i = cell_index(r, c);
    lemma_cell_index(r, c);
    lemma_cell_bits();
    let g1 = patterned_grid(blank_grid(), version);
    let g2 = reserved_grid(g1, size);
    assert(is_func(g1[i]));
    assert(is_func(g2[i]));
    assert(is_dark(g2[i]) == function_pattern(version, r, c)->0);
    let cw = codewords(data, version);
    assert((size - 1) * size <= 36 * 37) by (nonlinear_arith)
        requires
            21 <= size <= 37,
    ;
    lemma_place_keeps_func(g2, size, cw, ((size - 1) * size) as nat);
    let g3 = unmasked_grid(data, version);
    assert(g3[i] == g2[i]);
    let m = lowest_penalty_mask(g3, size, 8);
    let g4 = masked_grid(g3, size, m);
    assert(g4[i] == g3[i]);
}

/// The top-left module of every symbol is dark (a corner of the finder pattern).
pub proof fn lemma_top_left_dark(data: Seq<u8>, version: int)
    requires
        1 <= version <= 5,
    ensures
        is_dark(encoded_grid(data, version)[cell_index(0, 0)]),
{
    lemma_function_patterns_kept(data, version, 0, 0);
}

/// Whether module `(r, c)` of the finished symbol of `data` at `version` is dark.
pub open spec fn encoded_dark(data: Seq<u8>, version: int, r: int, c: int) -> bool {
    is_dark(encoded_grid(data, version)[cell_index(r, c)])
}

/// Every symbol carries its three finder patterns in the corners, each ringed
/// by a light separator one module wide, and the dark module at
/// `(4 * version + 9, 8)`, whatever the data and the chosen mask.
pub proof fn lemma_finders_separators_dark_module(data: Seq<u8>, version: int)
    requires
        1 <= version <= 5,
    ensures
        forall|r: int, c: int|
            #![trigger finder_dark(r, c)]
            0 <= r < 7 && 0 <= c < 7 ==> {
                &&& encoded_dark(data, version, r, c) == finder_dark(r, c)
                &&& encoded_dark(data, version, r, 17 + 4 * version - 7 + c) == finder_dark(r, c)
                &&& encoded_dark(data, version, 17 + 4 * version - 7 + r, c) == finder_dark(r, c)
            },
        forall|k: int|
            #![trigger encoded_dark(data, version, 7, k)]
            0 <= k < 8 ==> {
                &&& !encoded_dark(data, version, 7, k)
                &&& !encoded_dark(data, version, k, 7)
                &&& !encoded_dark(data, version, 7, 17 + 4 * version - 1 - k)
                &&& !encoded_dark(data, version, k, 17 + 4 * version - 8)
                &&& !encoded_dark(data, version, 17 + 4 * version - 8, k)
                &&& !encoded_dark(data, version, 17 + 4 * version - 1 - k, 7)
            },
        encoded_dark(data, version, 4 * version + 9, 8),
{
    let s = 17 + 4 * version;
    assert forall|r: int, c: int|
        #![trigger finder_dark(r, c)]
        0 <= r < 7 && 0 <= c < 7 implies {
        &&& encoded_dark(data, version, r, c) == finder_dark(r, c)
        &&& encoded_dark(data, version, r, s - 7 + c) == finder_dark(r, c)
        &&& encoded_dark(data, version, s - 7 + r, c) == finder_dark(r, c)
    } by {
        lemma_function_patterns_kept(data, version, r, c);
        lemma_function_patterns_kept(data, version, r, s - 7 + c);
        lemma_function_patterns_kept(data, version, s - 7 + r, c);
    }
    assert forall|k: int| #![trigger encoded_dark(data, version, 7, k)] 0 <= k < 8 implies {
        &&& !encoded_dark(data, version, 7, k)
        &&& !encoded_dark(data, version, k, 7)
        &&& !encoded_dark(data, version, 7, s - 1 - k)
        &&& !encoded_dark(data, version, k, s - 8)
        &&& !encoded_dark(data, version, s - 8, k)
        &&& !encoded_dark(data, version, s - 1 - k, 7)
    } by {
        lemma_function_patterns_kept(data, version, 7, k);
        lemma_function_patterns_kept(data, version, k, 7);
        lemma_function_patterns_kept(data, version, 7, s - 1 - k);
        lemma_function_patterns_kept(data, version, k, s - 8);
        lemma_function_patterns_kept(data, version, s - 8, k);
        lemma_function_patterns_kept(data, version, s - 1 - k, 7);
    }
    lemma_function_patterns_kept(data, version, s - 8, 8);
}

/// Masking is its own inverse: applying the same mask twice gives back the
/// grid, since a mask only flips data modules and never function modules.
pub proof fn lemma_mask_involution(g: Seq<u8>, size: int, mask: int)
    ensures
        masked_grid(masked_grid(g, size, mask), size, mask) == g,
{
    lemma_cell_bits();
    let h = masked_grid(g, size, mask);
    assert forall|i: int| 0 <= i < g.len() implies #[trigger] masked_grid(h, size, mask)[i] == g[i] by {
        let r = i / MAX_DIM as int;
        let c = i % MAX_DIM as int;
        if r < size && c < size && !is_func(g[i]) && mask_condition(mask, r, c) {
            assert(h[i] == g[i] ^ DARK);
            assert(is_func(h[i]) == is_func(g[i]));
        }
    }
    assert(masked_grid(h, size, mask) =~= g);
}

/// A mask changes only data modules: every function module keeps its value,
/// every data module inside the symbol is flipped exactly where the mask
/// condition holds, and a mask number outside 0–7 changes nothing.
pub proof fn lemma_mask_scope(g: Seq<u8>, size: int, mask: int)
    ensures
        masked_grid(g, size, mask).len() == g.len(),
        forall|i: int|
            0 <= i < g.len() && is_func(g[i]) ==> #[trigger] masked_grid(g, size, mask)[i] == g[i],
        forall|r: int, c: int|
            0 <= r < size && 0 <= c < size && size <= MAX_DIM && !is_func(g[cell_index(r, c)])
                && cell_index(r, c) < g.len() ==> #[trigger] masked_grid(g, size, mask)[cell_index(
                r,
                c,
            )] == if mask_condition(mask, r, c) {
                g[cell_index(r, c)] ^ DARK
            } else {
                g[cell_index(r, c)]
            },
        !(0 <= mask < 8) ==> masked_grid(g, size, mask) == g,
{
    assert forall|r: int, c: int|
        0 <= r < size && 0 <= c < size && size <= MAX_DIM && !is_func(g[cell_index(r, c)])
            && cell_index(r, c) < g.len() implies #[trigger] masked_grid(g, size, mask)[cell_index(
        r,
        c,
    )] == if mask_condition(mask, r, c) {
        g[cell_index(r, c)] ^ DARK
    } else {
        g[cell_index(r, c)]
    } by {
        lemma_cell_index(r, c);
    }
    if !(0 <= mask < 8) {
        assert(masked_grid(g, size, mask) =~= g);
    }
}

} // verus!
