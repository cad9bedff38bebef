//! One calculation session: its samples and the statistics derived from them.
use crate::sample::{modified_volume_of, round_div, rounded_units, round_pos_div, saturate_u64, InputData, MICROS};
use vstd::prelude::*;

verus! {

/// How a session's creation time is shown when it has no name of its own.
pub const DISPLAY_FORMAT: &'static str = "%Y-%m-%d %H:%M:%S";

/// The measured values of `s`, in millionths, in order.
pub open spec fn values_of(s: Seq<InputData>) -> Seq<int> {
    s.map_values(|d: InputData| d.value as int)
}

/// The least element of a non-empty sequence.
pub open spec fn seq_min(s: Seq<int>) -> int
    decreases s.len(),
{
    if s.len() <= 1 {
        s[0]
    } else if seq_min(s.drop_last()) <= s.last() {
        seq_min(s.drop_last())
    } else {
        s.last()
    }
}

/// The greatest element of a non-empty sequence.
pub open spec fn seq_max(s: Seq<int>) -> int
    decreases s.len(),
{
    if s.len() <= 1 {
        s[0]
    } else if seq_max(s.drop_last()) >= s.last() {
        seq_max(s.drop_last())
    } else {
        s.last()
    }
}

/// The sum of a sequence.
pub open spec fn seq_sum(s: Seq<int>) -> int
    decreases s.len(),
{
    if s.len() == 0 {
        0
    } else {
        seq_sum(s.drop_last()) + s.last()
    }
}

/// Minimum, maximum and mean of the samples' values, each rounded to a whole
/// number (halves up, values below zero as zero); absent for no samples.
pub open spec fn stats_of(s: Seq<InputData>) -> Option<(u64, u64, u64)> {
    if s.len() == 0 {
        None
    } else {
        let v = values_of(s);
        Some(
            (
                rounded_units(seq_min(v), 1),
                rounded_units(seq_max(v), 1),
                saturate_u64(round_pos_div(seq_sum(v), s.len() * MICROS)),
            ),
        )
    }
}

/// `b` is sample `a` with its modified volume derived for target `t`; with no
/// target, `b` is `a` unchanged.
pub open spec fn recomputed(a: InputData, b: InputData, t: Option<u64>) -> bool {
    &&& b.key == a.key
    &&& b.name == a.name
    &&& b.volume == a.volume
    &&& b.value == a.value
    &&& match t {
        Some(t) => b.modified_volume == modified_volume_of(a.value as int, a.volume as int, t),
        None => b.modified_volume == a.modified_volume,
    }
}

/// Each sample of `b` is the one of `a` at the same place, recomputed for `t`.
pub open spec fn samples_recomputed(a: Seq<InputData>, b: Seq<InputData>, t: Option<u64>) -> bool {
    &&& b.len() == a.len()
    &&& forall|i: int| 0 <= i < a.len() ==> recomputed(#[trigger] a[i], b[i], t)
}

/// Rounded minimum, maximum and mean of the samples' values; `None` when there
/// are no samples.
pub fn statistics(inputs: &Vec<InputData>) -> (r: Option<(u64, u64, u64)>)
    ensures
        r == stats_of(inputs@),
{
    let n = inputs.len();
    if n == 0 {
        return None;
    }
    let ghost v = values_of(inputs@);
    let mut lo: i64 = inputs[0].value;
    let mut hi: i64 = inputs[0].value;
    let mut sum: i128 = inputs[0].value as i128;
    proof {
        assert(v.take(1).drop_last() =~= Seq::<int>::empty());
        assert(seq_sum(Seq::<int>::empty()) == 0);
        assert(seq_sum(v.take(1)) == v[0]);
    }
    let mut i: usize = 1;
    while i < n
        invariant
            1 <= i <= n,
            n == inputs@.len(),
            v == values_of(inputs@),
            lo == seq_min(v.take(i as int)),
            hi == seq_max(v.take(i as int)),
            sum == seq_sum(v.take(i as int)),
            -(i as int) * 0x8000_0000_0000_0000 <= sum <= (i as int) * 0x8000_0000_0000_0000,
        decreases n - i,
    {
        let x = inputs[i].value;
        proof {
            assert(v.take(i + 1).drop_last() =~= v.take(i as int));
        }
        if x < lo {
            lo = x;
        }
        if x > hi {
            hi = x;
        }
        sum = sum + x as i128;
        i = i + 1;
    }
    proof {
        assert(v.take(n as int) =~= v);
    }
    let d: u128 = n as u128 * 1_000_000;
    Some((round_div(lo as i128, 1_000_000), round_div(hi as i128, 1_000_000), round_div(sum, d)))
}

/// Relies on chrono's `Local::now` and `DateTime::timestamp_millis`: the current
/// time in milliseconds since the epoch.
#[verifier::external_body]
fn now_millis() -> (r: i64) {
    chrono::Local::now().timestamp_millis()
}

/// Relies on chrono's `TimeZone::timestamp_millis_opt` on `Local`, then
/// `DateTime::format` with `fmt`: the local date and time of `ms`; `None` where
/// chrono gives no single local time for it. Only the display format, whose
/// specifiers chrono knows, is admitted: formatting cannot fail on it.
#[verifier::external_body]
fn local_time_text(ms: i64, fmt: &str) -> (r: Option<String>)
    requires
        fmt@ == DISPLAY_FORMAT@,
{
    match chrono::TimeZone::timestamp_millis_opt(&chrono::Local, ms) {
        chrono::LocalResult::Single(dt) => Some(dt.format(fmt).to_string()),
        chrono::LocalResult::Ambiguous(_, _) => None,
        chrono::LocalResult::None => None,
    }
}

/// One calculation session. `id` is its creation time in milliseconds since the
/// epoch; `name` overrides the displayed name; the statistics are whole numbers.
#[derive(Clone, Debug, PartialEq)]
pub struct Record {
    pub id: i64,
    pub name: Option<String>,
    pub inputs: Vec<InputData>,
    pub min_value: Option<u64>,
    pub max_value: Option<u64>,
    pub target_value: Option<u64>,
}

impl Default for Record {
    /// A new empty session stamped with the current time.
    fn default() -> (r: Self)
        ensures
            r.name is None,
            r.inputs@.len() == 0,
            r.min_value is None,
            r.max_value is None,
            r.target_value is None,
            r.wf(),
    {
        Record::with_id(now_millis())
    }
}

impl Record {
    /// Minimum and maximum agree with the samples (a target may be set freely).
    pub open spec fn wf(&self) -> bool {
        match stats_of(self.inputs@) {
            None => self.min_value is None && self.max_value is None,
            Some(st) => self.min_value == Some(st.0) && self.max_value == Some(st.1),
        }
    }

    /// A new empty session with the given id.
    pub fn with_id(id: i64) -> (r: Record)
        ensures
            r.id == id,
            r.name is None,
            r.inputs@.len() == 0,
            r.min_value is None,
            r.max_value is None,
            r.target_value is None,
            r.wf(),
    {
        Record {
            id,
            name: None,
            inputs: Vec::new(),
            min_value: None,
            max_value: None,
            target_value: None,
        }
    }

    /// Replaces the samples and, in the same step, the minimum, maximum and
    /// target derived from them (all absent for no samples).
    pub fn set_inputs(&mut self, inputs: Vec<InputData>)
        ensures
            final(self).inputs == inputs,
            final(self).id == old(self).id,
            final(self).name == old(self).name,
            stats_of(inputs@) is None ==> final(self).min_value is None
                && final(self).max_value is None && final(self).target_value is None,
            stats_of(inputs@) is Some ==> ({
                let st = stats_of(inputs@)->0;
                &&& final(self).min_value == Some(st.0)
                &&& final(self).max_value == Some(st.1)
                &&& final(self).target_value == Some(st.2)
            }),
            final(self).wf(),
    {
        match statistics(&inputs) {
            None => {
                self.min_value = None;
                self.max_value = None;
                self.target_value = None;
            },
            Some((lo, hi, mean)) => {
                self.min_value = Some(lo);
                self.max_value = Some(hi);
                self.target_value = Some(mean);
            },
        }
        self.inputs = inputs;
    }

    /// Overrides the target; nothing else changes.
    pub fn set_target(&mut self, target: u64)
        ensures
            final(self).target_value == Some(target),
            final(self).id == old(self).id,
            final(self).name == old(self).name,
            final(self).inputs == old(self).inputs,
            final(self).min_value == old(self).min_value,
            final(self).max_value == old(self).max_value,
    {
        self.target_value = Some(target);
    }

    /// Derives every sample's modified volume from the current target; does
    /// nothing while no target is set.
    pub fn modified_input_volumn(&mut self)
        ensures
            old(self).target_value is None ==> *final(self) == *old(self),
            final(self).id == old(self).id,
            final(self).name == old(self).name,
            final(self).min_value == old(self).min_value,
            final(self).max_value == old(self).max_value,
            final(self).target_value == old(self).target_value,
            samples_recomputed(old(self).inputs@, final(self).inputs@, old(self).target_value),
    {
        if let Some(target) = self.target_value {
            let n = self.inputs.len();
            let mut i: usize = 0;
            while i < n
                invariant
                    0 <= i <= n,
                    n == self.inputs@.len(),
                    self.id == old(self).id,
                    self.name == old(self).name,
                    self.min_value == old(self).min_value,
                    self.max_value == old(self).max_value,
                    self.target_value == Some(target),
                    old(self).target_value == Some(target),
                    n == old(self).inputs@.len(),
                    forall|j: int|
                        0 <= j < i ==> recomputed(
                            #[trigger] old(self).inputs@[j],
                            self.inputs@[j],
                            Some(target),
                        ),
                    forall|j: int| i <= j < n ==> #[trigger] self.inputs@[j] == old(self).inputs@[j],
                decreases n - i,
            {
                self.inputs[i].calc_modified_volumn(target);
                i = i + 1;
            }
        }
    }

    /// Sets the name shown for this session.
    pub fn set_name(&mut self, name: String)
        ensures
            final(self).name == Some(name),
            final(self).id == old(self).id,
            final(self).inputs == old(self).inputs,
            final(self).min_value == old(self).min_value,
            final(self).max_value == old(self).max_value,
            final(self).target_value == old(self).target_value,
    {
        self.name = Some(name);
    }

    /// The name shown for this session, given the text of its creation time
    /// (`stamp`): its own name if it has one, else `stamp`, else an empty text.
    pub fn display_name_from(&self, stamp: Option<String>) -> (r: String)
        ensures
            self.name matches Some(n) ==> r@ == n@,
            (self.name is None && stamp is Some) ==> r@ == stamp->0@,
            self.name is None && stamp is None ==> r@.len() == 0,
    {
        match &self.name {
            Some(n) => n.clone(),
            None => match stamp {
                Some(s) => s,
                None => String::new(),
            },
        }
    }

    /// The name shown for this session: its own name if it has one, else its
    /// creation time in local time as `YYYY-MM-DD HH:MM:SS`.
    pub fn get_display_name(&self) -> (r: String)
        ensures
            self.name matches Some(n) ==> r@ == n@,
    {
        let stamp = match &self.name {
            Some(_) => None,
            None => local_time_text(self.id, DISPLAY_FORMAT),
        };
        self.display_name_from(stamp)
    }
}

} // verus!
