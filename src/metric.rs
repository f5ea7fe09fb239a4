use vstd::prelude::*;
use vstd::string::*;

verus! {

/// A point in time: seconds since the epoch, and nanoseconds within the second.
pub struct Timespec {
    pub sec: i64,
    pub nsec: i32,
}

/// Division rounded toward zero, as Rust's `/` on integers.
pub open spec fn trunc_div(a: int, b: int) -> int {
    if a >= 0 {
        a / b
    } else {
        -((-a) / b)
    }
}

/// The seconds plus the whole milliseconds of the nanoseconds, wrapped
/// modulo 2^32.
pub open spec fn millis_of(sec: i64, nsec: i32) -> u32 {
    ((sec + trunc_div(nsec as int, 1_000_000)) % 0x1_0000_0000) as u32
}

/// A time that can be told as a 32-bit millisecond count.
pub trait ToMillis {
    spec fn spec_to_millis(&self) -> u32;

    fn to_millis(&self) -> (r: u32)
        ensures
            r == self.spec_to_millis(),
    ;
}

impl ToMillis for Timespec {
    open spec fn spec_to_millis(&self) -> u32 {
        millis_of(self.sec, self.nsec)
    }

    fn to_millis(&self) -> (r: u32) {
        let ms: i32 = self.nsec / 1000 / 1000;
        let total: i128 = self.sec as i128 + ms as i128;
        let rem: i128 = total % 0x1_0000_0000;
        let wrapped: i128 = if rem < 0 {
            rem + 0x1_0000_0000
        } else {
            rem
        };
        wrapped as u32
    }
}

/// One measurement: a dotted name, an integer value and a timestamp.
#[derive(Debug, Clone, PartialEq, Eq)]
pub struct Metric {
    pub name: String,
    pub value: i64,
    pub timestamp: u32,
}

impl View for Metric {
    type V = (Seq<char>, i64, u32);

    open spec fn view(&self) -> (Seq<char>, i64, u32) {
        (self.name@, self.value, self.timestamp)
    }
}

/// The values of a sequence of metrics.
pub open spec fn metric_views(v: Seq<Metric>) -> Seq<(Seq<char>, i64, u32)> {
    v.map_values(|m: Metric| m@)
}

impl Metric {
    /// A metric stamped with the millisecond count of `time`.
    pub fn new(name: &str, value: i64, time: &Timespec) -> (r: Metric)
        ensures
            r@ == (name@, value, time.spec_to_millis()),
    {
        Metric { name: String::from_str(name), value, timestamp: time.to_millis() }
    }
}

} // verus!
