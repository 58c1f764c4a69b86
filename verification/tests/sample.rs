use rarity::Sample;

#[derive(Clone, Copy, PartialEq, Debug)]
struct F(f64);

impl Sample for F {
    fn silence() -> F {
        F(0.0)
    }
    fn mix(self, other: F) -> F {
        F(self.0 + other.0)
    }
}

#[test]
fn float_samples_mix_by_addition() {
    assert_eq!(F(0.25).mix(F(0.5)), F(0.75));
    assert_eq!(F::silence(), F(0.0));
}

#[test]
fn pcm_mix_clips_at_the_range() {
    assert_eq!(<i32 as Sample>::mix(i32::MAX, 5), i32::MAX);
    assert_eq!(<i32 as Sample>::mix(i32::MIN, -5), i32::MIN);
    assert_eq!(<i32 as Sample>::mix(7, -5), 2);
    assert_eq!(<i16 as Sample>::mix(i16::MAX, 1), i16::MAX);
    assert_eq!(<i16 as Sample>::mix(i16::MIN, -1), i16::MIN);
    assert_eq!(<i16 as Sample>::mix(100, 23), 123);
    assert_eq!(<i16 as Sample>::silence(), 0);
    assert_eq!(<i32 as Sample>::silence(), 0);
}
