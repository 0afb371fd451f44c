use ani_core::iisa::{is_end_of_block, Cond, DstSrc, DstSrcSrc, Instr, Op, Pred, R, Src, SrcSrcSrc, SrcSrcTarget};
use ani_core::mips::translate::MipsTranslator;
use ani_core::mips::Arch;
use ani_core::Error;

fn be(word: u32) -> [u8; 4] {
    word.to_be_bytes()
}

fn le(word: u32) -> [u8; 4] {
    word.to_le_bytes()
}

fn check_simple_r2000(word: u32, expected_op: Op) {
    let translator_be = MipsTranslator { arch: Arch::R2000, big_endian: true };
    let translator_le = MipsTranslator { arch: Arch::R2000, big_endian: false };
    let expected = vec![Instr { op: expected_op, pred: Pred::Always, exc: 0, size: 4 }];
    assert_eq!(expected, translator_be.decode(0, &be(word)).unwrap());
    assert_eq!(expected, translator_le.decode(0, &le(word)).unwrap());
}

#[test]
fn r2000_addiu_gp_gp_neg12272() {
    check_simple_r2000(
        0x279cd010,
        Op::Add(DstSrcSrc { dst: R::W(28), src: [Src::Reg(R::W(28)), Src::ImmI16(-12272)] }),
    );
}

#[test]
fn r2000_addiu_a0_s0_neg14244() {
    check_simple_r2000(
        0x2604c85c,
        Op::Add(DstSrcSrc { dst: R::W(4), src: [Src::Reg(R::W(16)), Src::ImmI16(-14244)] }),
    );
}

#[test]
fn r2000_addu_s2_s1_v1() {
    check_simple_r2000(
        0x02239021,
        Op::Add(DstSrcSrc { dst: R::W(18), src: [Src::Reg(R::W(17)), Src::Reg(R::W(3))] }),
    );
}

#[test]
fn r2000_addu_s1_a1_zero() {
    check_simple_r2000(
        0x00a08821,
        Op::Add(DstSrcSrc { dst: R::W(17), src: [Src::Reg(R::W(5)), Src::ImmU32(0)] }),
    );
}

#[test]
fn r2000_lui_zero_0xabcd() {
    check_simple_r2000(0x3c00abcd, Op::Ld(DstSrc { dst: R::Discard, src: Src::ImmU32(0xABCD0000) }));
}

#[test]
fn r2000_lui_gp_0x8072() {
    check_simple_r2000(0x3c1c8072, Op::Ld(DstSrc { dst: R::W(28), src: Src::ImmU32(0x80720000) }));
}

#[test]
fn r2000_ori_at_at_0x4354() {
    check_simple_r2000(
        0x34214354,
        Op::Or(DstSrcSrc { dst: R::W(1), src: [Src::Reg(R::W(1)), Src::ImmU16(0x4354)] }),
    );
}

#[test]
fn r2000_ori_v0_v0_0xbabe() {
    check_simple_r2000(
        0x3442babe,
        Op::Or(DstSrcSrc { dst: R::W(2), src: [Src::Reg(R::W(2)), Src::ImmU16(0xBABE)] }),
    );
}

#[test]
fn r2000_sw_zero_20_sp() {
    check_simple_r2000(
        0xafa00014,
        Op::Sw(SrcSrcSrc { src: [Src::ImmU32(0), Src::ImmI16(20), Src::Reg(R::W(29))] }),
    );
}

#[test]
fn r2000_sw_s3_neg336_gp() {
    check_simple_r2000(
        0xaf93feb0,
        Op::Sw(SrcSrcSrc { src: [Src::Reg(R::W(19)), Src::ImmI16(-336), Src::Reg(R::W(28))] }),
    );
}

fn be_words(words: &[u32]) -> Vec<u8> {
    let mut buffer = Vec::new();
    for word in words {
        buffer.extend_from_slice(&word.to_be_bytes());
    }
    buffer
}

#[test]
fn r2000_beq_a2_at_80710038_move_s3_a3() {
    let translator_be = MipsTranslator { arch: Arch::R2000, big_endian: true };
    let buffer_be = be_words(&[0x10c10003, 0x00e09821]);
    let iisa_be = translator_be.decode(0x80710028, &buffer_be).unwrap();
    assert_eq!(
        iisa_be,
        vec![
            Instr {
                op: Op::Add(DstSrcSrc { dst: R::W(19), src: [Src::Reg(R::W(7)), Src::ImmU32(0)] }),
                pred: Pred::Always,
                exc: 1,
                size: 0,
            },
            Instr {
                op: Op::B(
                    Cond::Eq,
                    SrcSrcTarget { src: [Src::Reg(R::W(6)), Src::Reg(R::W(1))], target: Src::Addr(0x80710038) },
                ),
                pred: Pred::Always,
                exc: 2,
                size: 8,
            },
        ]
    );
    assert!(!is_end_of_block(&iisa_be[0].op));
    assert!(is_end_of_block(&iisa_be[1].op));
}

#[test]
fn beq_backwards_target_wraps_to_32_bits() {
    let translator = MipsTranslator { arch: Arch::Sys161, big_endian: true };
    // beq zero, zero, -2 at 0x0: target 0 + 4 - 8, kept to 32 bits.
    let iisa = translator.decode(0, &be_words(&[0x1000fffe, 0x24010001])).unwrap();
    assert_eq!(2, iisa.len());
    assert_eq!(
        Op::B(Cond::Eq, SrcSrcTarget { src: [Src::ImmU32(0), Src::ImmU32(0)], target: Src::Addr(0xfffffffc) }),
        iisa[1].op
    );
    assert_eq!(
        Op::Add(DstSrcSrc { dst: R::W(1), src: [Src::ImmU32(0), Src::ImmI16(1)] }),
        iisa[0].op
    );
}

fn is_unimplemented(r: Result<Vec<Instr>, Error>) -> bool {
    matches!(r, Err(Error::Unimplemented(_)))
}

#[test]
fn decode_refuses_branch_in_delay_slot() {
    let translator = MipsTranslator { arch: Arch::R2000, big_endian: true };
    assert!(is_unimplemented(translator.decode(0, &be_words(&[0x10c10003, 0x10c10003]))));
}

#[test]
fn decode_refuses_missing_delay_slot_and_short_buffers() {
    let translator = MipsTranslator { arch: Arch::R2000, big_endian: false };
    assert!(is_unimplemented(translator.decode(0, &le(0x10c10003))));
    assert!(is_unimplemented(translator.decode(0, &[0x21, 0x88, 0xa0])));
    assert!(is_unimplemented(translator.decode(0, &[])));
}

#[test]
fn decode_refuses_unknown_instructions() {
    let translator = MipsTranslator { arch: Arch::R2000, big_endian: true };
    // sll zero, zero, 0
    assert!(is_unimplemented(translator.decode(0, &be(0))));
    // addu with a non-zero shift field
    assert!(is_unimplemented(translator.decode(0, &be(0x00a08861))));
    // lui with a non-zero rs field
    assert!(is_unimplemented(translator.decode(0, &be(0x3c20abcd))));
}

#[test]
fn mips64_cores_are_not_decoded() {
    let translator = MipsTranslator { arch: Arch::VR4300, big_endian: true };
    assert!(is_unimplemented(translator.decode(0, &be(0x34214354))));
}
