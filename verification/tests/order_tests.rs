use space_travel::order::{key_or_greatest, key_or_least, order_key};

fn key(v: f32) -> Option<u32> {
    order_key(v.to_bits())
}

#[test]
fn keys_follow_the_order_of_values() {
    let values = [
        f32::NEG_INFINITY,
        -3.5e20,
        -2.0,
        -1.5,
        -1.0e-40,
        0.0,
        1.0e-40,
        0.25,
        1.0,
        1.0000001,
        7.0e30,
        f32::MAX,
        f32::INFINITY,
    ];
    for a in values {
        for b in values {
            let (ka, kb) = (key(a).unwrap(), key(b).unwrap());
            assert_eq!(ka < kb, a < b, "{} {}", a, b);
            assert_eq!(ka == kb, a == b, "{} {}", a, b);
        }
    }
}

#[test]
fn zeros_share_a_key() {
    assert_eq!(key(0.0), key(-0.0));
    assert_eq!(key(0.0), Some(0x8000_0000));
}

#[test]
fn infinity_key() {
    assert_eq!(key(f32::INFINITY), Some(0xFF80_0000));
    assert_eq!(key(f32::NEG_INFINITY), Some(0x0080_0000));
}

#[test]
fn nan_has_no_key() {
    assert_eq!(key(f32::NAN), None);
    assert_eq!(key(-f32::NAN), None);
    assert_eq!(order_key(0x7f80_0001), None);
    assert_eq!(order_key(0xffc0_0000), None);
}

#[test]
fn nan_keys_sit_outside_every_value() {
    assert_eq!(key_or_greatest(f32::NAN.to_bits()), u32::MAX);
    assert_eq!(key_or_least(f32::NAN.to_bits()), 0);
    for v in [f32::NEG_INFINITY, -1.0, 0.0, 2.5, f32::MAX, f32::INFINITY] {
        let k = key_or_greatest(v.to_bits());
        assert_eq!(k, key_or_least(v.to_bits()));
        assert!(0 < k && k < u32::MAX);
    }
}
