//! One measured sample and the arithmetic that normalises it.
use vstd::prelude::*;

verus! {

/// A measured value is held in fixed point: this many units make one whole unit.
pub const MICROS: u64 = 1_000_000;

/// `a / d` rounded to the nearest integer with halves rounded up, when `a > 0`;
/// zero when `a <= 0` (a rounded value that is not positive counts as zero).
pub open spec fn round_pos_div(a: int, d: int) -> nat
    recommends
        d > 0,
{
    if a <= 0 {
        0
    } else {
        (a / d + if 2 * (a % d) >= d { 1int } else { 0int }) as nat
    }
}

/// A natural number clamped into `u64`.
pub open spec fn saturate_u64(x: nat) -> u64 {
    if x > u64::MAX {
        u64::MAX
    } else {
        x as u64
    }
}

/// The fixed-point value `micros / MICROS`, divided by `divisor`, rounded to a
/// whole number and clamped into `u64`.
pub open spec fn rounded_units(micros: int, divisor: int) -> u64 {
    saturate_u64(round_pos_div(micros, divisor * MICROS))
}

/// The value per unit of volume, rounded; absent while no volume is set.
pub open spec fn per_volume(value: int, volume: int) -> Option<u64> {
    if volume == 0 {
        None
    } else {
        Some(rounded_units(value, volume))
    }
}

/// The modified volume for a target: the target divided (truncating) by the
/// rounded value per volume. Absent while no volume is set, and where the
/// rounded value per volume is zero.
pub open spec fn modified_volume_of(value: int, volume: int, target: u64) -> Option<u64> {
    match per_volume(value, volume) {
        None => None,
        Some(p) => if p == 0 {
            None
        } else {
            Some(target / p)
        },
    }
}

/// Without a volume a sample has no modified volume, whatever the target.
pub proof fn lemma_no_volume_no_modified(value: int, target: u64)
    ensures
        modified_volume_of(value, 0, target) is None,
{
}

/// With a volume set, and a value per volume that does not round to zero, the
/// modified volume is the target divided, truncating, by the rounded value per
/// volume.
pub proof fn lemma_modified_volume_formula(value: int, volume: int, target: u64)
    requires
        volume > 0,
        rounded_units(value, volume) > 0,
    ensures
        modified_volume_of(value, volume, target) == Some((target / rounded_units(value, volume)) as u64),
{
}

/// `a / d`, rounded as `round_pos_div` says and clamped into `u64`.
pub fn round_div(a: i128, d: u128) -> (r: u64)
    requires
        d > 0,
    ensures
        r == saturate_u64(round_pos_div(a as int, d as int)),
{
    if a <= 0 {
        return 0;
    }
    let ua = a as u128;
    let q = ua / d;
    let rem = ua % d;
    assert(q <= ua) by (nonlinear_arith)
        requires
            q == ua / d,
            d > 0,
            ua >= 0,
    ;
    let up: u128 = if rem >= d - rem {
        1
    } else {
        0
    };
    let n = q + up;
    if n > u64::MAX as u128 {
        u64::MAX
    } else {
        n as u64
    }
}

/// One parsed measurement line: its key, an editable display name, the volume
/// that normalises it (0 while unset), the measured value in millionths, and the
/// derived modified volume.
#[derive(Clone, Debug, PartialEq)]
pub struct InputData {
    pub key: String,
    pub name: String,
    pub volume: u8,
    pub value: i64,
    pub modified_volume: Option<u64>,
}

impl InputData {
    /// A sample as a parsed line gives it: the name is the key, no volume is set
    /// and no modified volume is derived.
    pub fn new(key: String, value: i64) -> (r: InputData)
        ensures
            r.key@ == key@,
            r.name@ == key@,
            r.volume == 0,
            r.value == value,
            r.modified_volume is None,
    {
        let name = key.clone();
        InputData { key, name, volume: 0, value, modified_volume: None }
    }

    /// The value per unit of volume, rounded; `None` while no volume is set.
    pub fn value_per_volumn(&self) -> (r: Option<u64>)
        ensures
            r == per_volume(self.value as int, self.volume as int),
    {
        if self.volume == 0 {
            return None;
        }
        let d: u128 = self.volume as u128 * 1_000_000;
        Some(round_div(self.value as i128, d))
    }

    /// Derives the modified volume from the value, the volume and `target_value`;
    /// nothing else changes.
    pub fn calc_modified_volumn(&mut self, target_value: u64)
        ensures
            final(self).modified_volume == modified_volume_of(
                old(self).value as int,
                old(self).volume as int,
                target_value,
            ),
            final(self).key == old(self).key,
            final(self).name == old(self).name,
            final(self).volume == old(self).volume,
            final(self).value == old(self).value,
    {
        self.modified_volume = match self.value_per_volumn() {
            None => None,
            Some(p) => target_value.checked_div(p),
        };
    }

    /// The measured value, in millionths.
    pub fn get_value(&self) -> (r: i64)
        ensures
            r == self.value,
    {
        self.value
    }
}

} // verus!
