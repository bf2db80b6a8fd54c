use cdm_linker::builtins::{
    __adddi3, __divhi3, __divmodhi4, __divmodsi4, __divsi3, __modhi3, __modsi3, __mulhi3, __mulsi3,
    __negdi2, __subdi3, __udivhi3, __udivmodhi4, __udivmodsi4, __udivsi3, __umodhi3, __umodsi3,
};

const SAMPLES16: [u16; 12] = [0, 1, 2, 3, 7, 10, 255, 256, 1000, 32767, 32768, 65535];
const SAMPLES32: [u32; 12] =
    [0, 1, 2, 3, 7, 65535, 65536, 1_000_000, 0x7fff_ffff, 0x8000_0000, 0x8000_0001, u32::MAX];

#[test]
fn unsigned_16_bit_division() {
    assert_eq!(__udivhi3(1000, 7), 142);
    assert_eq!(__umodhi3(1000, 7), 6);
    assert_eq!(__udivhi3(65535, 65535), 1);
    assert_eq!(__udivhi3(65534, 65535), 0);
    for a in SAMPLES16 {
        for b in SAMPLES16.iter().copied().filter(|b| *b != 0) {
            assert_eq!(__udivhi3(a, b), a / b);
            assert_eq!(__umodhi3(a, b), a % b);
            let mut rem = 0;
            assert_eq!(__udivmodhi4(a, b, &mut rem), a / b);
            assert_eq!(rem, a % b);
        }
    }
}

#[test]
fn unsigned_32_bit_division() {
    assert_eq!(__udivsi3(u32::MAX, 0x8000_0001), 1);
    assert_eq!(__umodsi3(u32::MAX, 0x8000_0001), 0x7fff_fffe);
    for a in SAMPLES32 {
        for b in SAMPLES32.iter().copied().filter(|b| *b != 0) {
            assert_eq!(__udivsi3(a, b), a / b);
            assert_eq!(__umodsi3(a, b), a % b);
            let mut rem = 0;
            assert_eq!(__udivmodsi4(a, b, &mut rem), a / b);
            assert_eq!(rem, a % b);
        }
    }
}

#[test]
fn signed_16_bit_division_truncates() {
    assert_eq!(__divhi3(-7, 2), -3);
    assert_eq!(__modhi3(-7, 2), -1);
    assert_eq!(__divhi3(7, -2), -3);
    assert_eq!(__modhi3(7, -2), 1);
    assert_eq!(__divhi3(-7, -2), 3);
    assert_eq!(__modhi3(-7, -2), -1);
    let mut rem = 0;
    assert_eq!(__divmodhi4(-100, 7, &mut rem), -14);
    assert_eq!(rem, -2);
}

#[test]
fn signed_16_bit_division_overflow_wraps() {
    assert_eq!(__divhi3(i16::MIN, -1), i16::MIN);
    assert_eq!(__modhi3(i16::MIN, -1), 0);
    assert_eq!(__divhi3(i16::MIN, 1), i16::MIN);
}

#[test]
fn signed_division_matches_wrapping_ops() {
    let s16 = [i16::MIN, -32767, -1000, -7, -2, -1, 0, 1, 2, 7, 1000, i16::MAX];
    for a in s16 {
        for b in s16.iter().copied().filter(|b| *b != 0) {
            assert_eq!(__divhi3(a, b), a.wrapping_div(b));
            assert_eq!(__modhi3(a, b), a.wrapping_rem(b));
            // q * b + r == a, wrapping
            assert_eq!(__divhi3(a, b).wrapping_mul(b).wrapping_add(__modhi3(a, b)), a);
        }
    }
    let s32 = [i32::MIN, -2_000_000_000, -65536, -7, -1, 0, 1, 7, 65536, i32::MAX];
    for a in s32 {
        for b in s32.iter().copied().filter(|b| *b != 0) {
            assert_eq!(__divsi3(a, b), a.wrapping_div(b));
            assert_eq!(__modsi3(a, b), a.wrapping_rem(b));
            let mut rem = 0;
            assert_eq!(__divmodsi4(a, b, &mut rem), a.wrapping_div(b));
            assert_eq!(rem, a.wrapping_rem(b));
        }
    }
}

#[test]
fn multiplication_keeps_low_bits() {
    assert_eq!(__mulhi3(300, 300), 24464);
    assert_eq!(__mulhi3(0, 12345), 0);
    assert_eq!(__mulsi3(0x1_0000, 0x1_0000), 0);
    assert_eq!(__mulsi3(123_456, 654_321), 123_456u32.wrapping_mul(654_321));
    for a in SAMPLES16 {
        for b in SAMPLES16 {
            assert_eq!(__mulhi3(a, b), a.wrapping_mul(b));
        }
    }
    for a in SAMPLES32 {
        for b in SAMPLES32 {
            assert_eq!(__mulsi3(a, b), a.wrapping_mul(b));
        }
    }
}

#[test]
fn sixty_four_bit_add_sub_neg() {
    assert_eq!(__adddi3(u64::MAX, 1), 0);
    assert_eq!(__adddi3(0xffff, 1), 0x1_0000);
    assert_eq!(__subdi3(0, 1), u64::MAX);
    assert_eq!(__subdi3(0x1_0000_0000, 1), 0xffff_ffff);
    assert_eq!(__negdi2(0), 0);
    assert_eq!(__negdi2(1), u64::MAX);
    assert_eq!(__negdi2(0x1_0000), 0xffff_ffff_ffff_0000);
    assert_eq!(__negdi2(0x8000_0000_0000_0000), 0x8000_0000_0000_0000);
    let samples = [0u64, 1, 0xffff, 0x1_0000, 0x1234_5678_9abc_def0, u64::MAX - 1, u64::MAX];
    for a in samples {
        assert_eq!(__negdi2(a), a.wrapping_neg());
        for b in samples {
            assert_eq!(__adddi3(a, b), a.wrapping_add(b));
            assert_eq!(__subdi3(a, b), a.wrapping_sub(b));
            assert_eq!(__subdi3(a, b), __adddi3(a, __negdi2(b)));
        }
    }
}
