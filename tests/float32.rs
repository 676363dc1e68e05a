use noir_compute::expr::NoirType;
use noir_compute::float32::{int_to_single, sqrt_positive, Single};

fn float(x: f32) -> NoirType {
    NoirType::Float32(Single::from_bits(x.to_bits()))
}

#[test]
fn test_sqrt() {
    let f_a = float(9.0);

    assert_eq!(f_a.sqrt(), float(3.0));

    let i_a = NoirType::Int32(9);

    assert_eq!(i_a.sqrt(), float(3.0));
}

#[test]
fn sqrt_matches_hardware_rounding() {
    for x in [2.0f32, 0.5, 1e-40, 3.4e38, 12345.678, 1.0000001, 7.0, f32::from_bits(0x3F7F_FFFF)] {
        assert_eq!(float(x).sqrt(), float(x.sqrt()), "sqrt of {x}");
    }
    for a in [1i32, 2, 3, 16_777_217, 2_147_483_647, 123_456_789] {
        assert_eq!(NoirType::Int32(a).sqrt(), float((a as f32).sqrt()), "sqrt of {a}");
    }
}

#[test]
fn sqrt_special_values() {
    assert_eq!(float(-4.0).sqrt(), NoirType::NaN());
    assert_eq!(float(-0.0).sqrt(), float(-0.0));
    assert_eq!(float(f32::INFINITY).sqrt(), float(f32::INFINITY));
    assert_eq!(float(f32::NAN).sqrt(), NoirType::NaN());
    assert_eq!(NoirType::Int32(-1).sqrt(), NoirType::NaN());
    assert_eq!(NoirType::Int32(0).sqrt(), float(0.0));
    assert_eq!(NoirType::Missing().sqrt(), NoirType::Missing());
    assert_eq!(NoirType::Bool(true).sqrt(), NoirType::NaN());
}

#[test]
fn int_conversion_rounds_to_even() {
    for a in [1i32, -1, 16_777_217, 16_777_219, -33_554_435, 33_554_430, 33_554_431, i32::MAX, i32::MIN + 1, 0] {
        assert_eq!(int_to_single(a).to_bits(), (a as f32).to_bits(), "{a}");
    }
}

#[test]
fn single_round_trip() {
    let x = Single::from_bits(0x4049_0fdb);
    assert_eq!(x.to_bits(), 0x4049_0fdb);
    assert_eq!(
        sqrt_positive(Single::from_bits(16.0f32.to_bits())).to_bits(),
        4.0f32.to_bits()
    );
}
