use vstd::prelude::*;

verus! {

/// One channel's value at one instant. The engine only ever copies samples,
/// writes silence and mixes two samples into one. What `mix` computes is the
/// sample type's own business: contracts speak of it through `mixes_to`.
pub trait Sample: Copy {
    /// A silent sample.
    fn silence() -> Self;

    /// The sample heard when `self` and `other` sound together.
    fn mix(self, other: Self) -> Self;
}

/// `s` is a value that `T::silence()` may return.
pub open spec fn is_silence<T: Sample>(s: T) -> bool {
    call_ensures(T::silence, (), s)
}

/// `r` is a value that `a.mix(b)` may return.
pub open spec fn mixes_to<T: Sample>(a: T, b: T, r: T) -> bool {
    call_ensures(T::mix, (a, b), r)
}

/// A sum of two 16-bit samples, held to the range of the type.
pub open spec fn clip16(sum: int) -> i16 {
    if sum > i16::MAX {
        i16::MAX
    } else if sum < i16::MIN {
        i16::MIN
    } else {
        sum as i16
    }
}

/// A sum of two 32-bit samples, held to the range of the type.
pub open spec fn clip32(sum: int) -> i32 {
    if sum > i32::MAX {
        i32::MAX
    } else if sum < i32::MIN {
        i32::MIN
    } else {
        sum as i32
    }
}

/// Signed 16-bit PCM: silence is zero, mixing adds and clips.
impl Sample for i16 {
    fn silence() -> (s: i16)
        ensures
            s == 0,
    {
        0
    }

    fn mix(self, other: i16) -> (s: i16)
        ensures
            s == clip16(self + other),
    {
        let wide: i32 = self as i32 + other as i32;
        if wide > i16::MAX as i32 {
            i16::MAX
        } else if wide < i16::MIN as i32 {
            i16::MIN
        } else {
            wide as i16
        }
    }
}

/// Signed 32-bit PCM: silence is zero, mixing adds and clips.
impl Sample for i32 {
    fn silence() -> (s: i32)
        ensures
            s == 0,
    {
        0
    }

    fn mix(self, other: i32) -> (s: i32)
        ensures
            s == clip32(self + other),
    {
        let wide: i64 = self as i64 + other as i64;
        if wide > i32::MAX as i64 {
            i32::MAX
        } else if wide < i32::MIN as i64 {
            i32::MIN
        } else {
            wide as i32
        }
    }
}

} // verus!
