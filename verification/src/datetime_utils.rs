//! Quantized UTC instants.
//!
//! An instant is held as whole seconds and sub-second nanoseconds since the
//! Unix epoch, together with its canonical RFC 3339 rendering. The rendering
//! is computed once, when the instant is built, because it is used both as a
//! search key and in the signable payload. All ordering, flooring and
//! stepping logic is plain verified arithmetic on the two numbers; only
//! parsing, rendering and reading the wall clock go through chrono.

use vstd::prelude::*;

use crate::errors::Error;

verus! {

/// Width of the rotation quantum, in seconds: five minutes. The same width
/// drives the rotation trigger (`floored`) and the range stepping
/// (`DateTimeRange`); the two must never diverge.
pub const QUANTUM_SECS: i64 = 300;

/// Earliest representable instant: 0000-01-01T00:00:00Z, the first second of
/// the earliest year an RFC 3339 string can carry. A multiple of the quantum.
pub const MIN_SECS: i64 = -62167219200;

/// Latest representable instant: 9999-12-31T23:59:59Z, within the last year
/// an RFC 3339 string can carry.
pub const MAX_SECS: i64 = 253402300799;

/// Largest sub-second part: one nanosecond short of a whole second.
pub const MAX_NANOS: u32 = 999_999_999;

/// The canonical RFC 3339 rendering chrono gives to an in-range instant.
/// It depends on the two numbers alone.
pub uninterp spec fn rfc3339_of(secs: int, nanos: int) -> Seq<char>;

/// What chrono's RFC 3339 parser returns for a string: the instant as
/// (seconds, nanoseconds) since the epoch, or nothing for malformed input.
/// It depends on the characters alone.
pub uninterp spec fn rfc3339_parse_of(s: Seq<char>) -> Option<(int, int)>;

/// Relies on chrono's `DateTime::from_timestamp` (total for the in-range
/// seconds and nanoseconds admitted here) followed by `DateTime::to_rfc3339`,
/// whose result depends on the instant alone. `parse_from_rfc3339` is
/// documented to parse every valid RFC 3339 value, the renderings of
/// `to_rfc3339` among them, back to the instant that was rendered.
#[verifier::external_body]
fn chrono_render(secs: i64, nanos: u32) -> (r: String)
    requires
        MIN_SECS <= secs <= MAX_SECS,
        nanos <= MAX_NANOS,
    ensures
        r@ == rfc3339_of(secs as int, nanos as int),
        rfc3339_parse_of(r@) == Some((secs as int, nanos as int)),
{
    chrono::DateTime::<chrono::Utc>::from_timestamp(secs, nanos)
        .expect("in-range instant")
        .to_rfc3339()
}

/// Relies on chrono's `DateTime::parse_from_rfc3339`; `timestamp` and
/// `timestamp_subsec_nanos` read the parsed instant back as plain numbers.
#[verifier::external_body]
fn chrono_parse(input: &str) -> (r: Option<(i64, u32)>)
    ensures
        match r {
            Some(p) => rfc3339_parse_of(input@) == Some((p.0 as int, p.1 as int)),
            None => rfc3339_parse_of(input@) is None,
        },
{
    match chrono::DateTime::parse_from_rfc3339(input) {
        Ok(dt) => Some((dt.timestamp(), dt.timestamp_subsec_nanos())),
        Err(_) => None,
    }
}

/// Relies on chrono's `Utc::now`: the wall clock, about which nothing can be
/// promised. One caveat: chrono's `Utc::now` itself panics on a host whose
/// clock reads before the Unix epoch, so this call does too.
#[verifier::external_body]
fn chrono_now() -> (r: (i64, u32)) {
    let t = chrono::Utc::now();
    (t.timestamp(), t.timestamp_subsec_nanos())
}

/// The mathematical model of an instant.
pub ghost struct TimeModel {
    /// Whole seconds since the Unix epoch.
    pub secs: int,
    /// Nanoseconds since the last whole second.
    pub nanos: int,
    /// The canonical RFC 3339 rendering.
    pub rendered: Seq<char>,
}

/// A string the parser accepts and whose instant the library can represent:
/// exactly the input on which `ProveWhenTime::from_str` succeeds.
pub open spec fn parse_accepted(s: Seq<char>) -> bool {
    match rfc3339_parse_of(s) {
        Some(p) => MIN_SECS <= p.0 <= MAX_SECS && 0 <= p.1 <= MAX_NANOS,
        None => false,
    }
}

/// An in-range instant whose rendering is the canonical one — which the
/// parser accepts and maps back to the very same instant.
pub open spec fn time_wf(t: TimeModel) -> bool {
    &&& MIN_SECS <= t.secs <= MAX_SECS
    &&& 0 <= t.nanos <= MAX_NANOS
    &&& t.rendered == rfc3339_of(t.secs, t.nanos)
    &&& rfc3339_parse_of(t.rendered) == Some((t.secs, t.nanos))
}

/// Round trip of the canonical form: the rendering of a well-formed instant
/// is accepted by the parser and denotes the instant it was rendered from,
/// so `ProveWhenTime::from_str` on `as_str` succeeds and preserves the
/// instant.
pub proof fn lemma_render_parse_round_trip(t: TimeModel)
    requires
        time_wf(t),
    ensures
        parse_accepted(t.rendered),
        rfc3339_parse_of(t.rendered) == Some((t.secs, t.nanos)),
{
}

/// Position of an instant on the UTC timeline, in nanoseconds. Instants are
/// ordered and compared for equality by this value alone, never by their
/// rendered strings.
pub open spec fn time_ns(t: TimeModel) -> int {
    t.secs * 1_000_000_000 + t.nanos
}

/// The instant floored to its quantum boundary, in seconds.
pub open spec fn floor_secs(s: int) -> int {
    s - (s % (QUANTUM_SECS as int))
}

/// An instant that lies exactly on a quantum boundary.
pub open spec fn on_boundary(t: TimeModel) -> bool {
    t.secs % (QUANTUM_SECS as int) == 0 && t.nanos == 0
}

/// A UTC instant, quantizable to the rotation boundary.
pub struct ProveWhenTime {
    secs: i64,
    nanos: u32,
    rendered: String,
}

impl View for ProveWhenTime {
    type V = TimeModel;

    closed spec fn view(&self) -> TimeModel {
        TimeModel { secs: self.secs as int, nanos: self.nanos as int, rendered: self.rendered@ }
    }
}

impl Clone for ProveWhenTime {
    fn clone(&self) -> (r: Self)
        ensures
            r == *self,
    {
        ProveWhenTime { secs: self.secs, nanos: self.nanos, rendered: self.rendered.clone() }
    }
}

/// On in-range instants, the timeline order agrees with the lexicographic
/// order on (seconds, nanoseconds).
pub proof fn lemma_ns_order(a: TimeModel, b: TimeModel)
    requires
        0 <= a.nanos <= MAX_NANOS,
        0 <= b.nanos <= MAX_NANOS,
    ensures
        (time_ns(a) < time_ns(b)) == (a.secs < b.secs || (a.secs == b.secs && a.nanos < b.nanos)),
        (time_ns(a) == time_ns(b)) == (a.secs == b.secs && a.nanos == b.nanos),
{
    assert((time_ns(a) < time_ns(b)) == (a.secs < b.secs || (a.secs == b.secs && a.nanos
        < b.nanos)) && (time_ns(a) == time_ns(b)) == (a.secs == b.secs && a.nanos == b.nanos))
        by (nonlinear_arith)
        requires
            0 <= a.nanos <= MAX_NANOS,
            0 <= b.nanos <= MAX_NANOS,
            time_ns(a) == a.secs * 1_000_000_000 + a.nanos,
            time_ns(b) == b.secs * 1_000_000_000 + b.nanos,
    ;
}

impl ProveWhenTime {
    /// The current UTC instant, with its rendering precomputed. Never fails:
    /// a clock reading outside the representable range is clamped to it.
    /// (chrono's own clock read panics on a host whose clock sits before the
    /// Unix epoch; that inherited edge aside, this is total.)
    pub fn now() -> (r: Self)
        ensures
            time_wf(r@),
    {
        let (raw_secs, raw_nanos) = chrono_now();
        let secs: i64 = if raw_secs < MIN_SECS {
            MIN_SECS
        } else if raw_secs > MAX_SECS {
            MAX_SECS
        } else {
            raw_secs
        };
        let nanos: u32 = if raw_nanos > MAX_NANOS {
            MAX_NANOS
        } else {
            raw_nanos
        };
        let rendered = chrono_render(secs, nanos);
        ProveWhenTime { secs, nanos, rendered }
    }

    /// Parses a strict RFC 3339 timestamp. Fails exactly on input the parser
    /// rejects or that falls outside the representable range; the accepted
    /// instant is re-rendered to its canonical form.
    pub fn from_str(input: &str) -> (r: Result<Self, Error>)
        ensures
            r is Ok <==> parse_accepted(input@),
            match r {
                Ok(t) => {
                    &&& time_wf(t@)
                    &&& rfc3339_parse_of(input@) == Some((t@.secs, t@.nanos))
                },
                Err(e) => e == Error::Parse,
            },
    {
        match chrono_parse(input) {
            Some((secs, nanos)) => {
                if MIN_SECS <= secs && secs <= MAX_SECS && nanos <= MAX_NANOS {
                    let rendered = chrono_render(secs, nanos);
                    Ok(ProveWhenTime { secs, nanos, rendered })
                } else {
                    Err(Error::Parse)
                }
            },
            None => Err(Error::Parse),
        }
    }

    /// The canonical rendering.
    pub fn as_str(&self) -> (r: &str)
        ensures
            r@ == self@.rendered,
    {
        self.rendered.as_str()
    }

    /// The instant as plain numbers: seconds since the epoch and nanoseconds
    /// since the last whole second.
    pub fn inner(&self) -> (r: (i64, u32))
        ensures
            r.0 as int == self@.secs,
            r.1 as int == self@.nanos,
    {
        (self.secs, self.nanos)
    }

    /// True when this instant lies strictly before `other` on the timeline.
    pub fn is_before(&self, other: &Self) -> (r: bool)
        requires
            time_wf(self@),
            time_wf(other@),
        ensures
            r == (time_ns(self@) < time_ns(other@)),
    {
        proof {
            lemma_ns_order(self@, other@);
        }
        self.secs < other.secs || (self.secs == other.secs && self.nanos < other.nanos)
    }

    /// True when this instant and `other` are the same point on the timeline.
    pub fn is_same(&self, other: &Self) -> (r: bool)
        requires
            time_wf(self@),
            time_wf(other@),
        ensures
            r == (time_ns(self@) == time_ns(other@)),
    {
        proof {
            lemma_ns_order(self@, other@);
        }
        self.secs == other.secs && self.nanos == other.nanos
    }

    /// The instant truncated to the enclosing quantum boundary: sub-quantum
    /// seconds and all sub-second precision zeroed out.
    pub fn floored(&self) -> (r: Self)
        requires
            time_wf(self@),
        ensures
            time_wf(r@),
            r@.secs == floor_secs(self@.secs),
            r@.nanos == 0,
            on_boundary(r@),
    {
        proof {
            lemma_floor_secs(self@.secs);
            lemma_shifted_rem(self@.secs);
            vstd::arithmetic::div_mod::lemma_mod_bound(
                self@.secs - MIN_SECS,
                QUANTUM_SECS as int,
            );
            vstd::arithmetic::div_mod::lemma_mod_decreases(
                (self@.secs - MIN_SECS) as nat,
                QUANTUM_SECS as nat,
            );
        }
        // Shift into a non-negative frame before taking the remainder, so the
        // executable remainder agrees with the mathematical one; MIN_SECS is
        // itself a multiple of the quantum.
        let shifted: i64 = self.secs - MIN_SECS;
        let rem: i64 = shifted % QUANTUM_SECS;
        let floored_secs: i64 = self.secs - rem;
        let rendered = chrono_render(floored_secs, 0);
        ProveWhenTime { secs: floored_secs, nanos: 0, rendered }
    }

    /// Builds the instant one quantum after `self`; for internal stepping.
    /// Requires room on the timeline, which `DateTimeRange` guarantees.
    fn plus_quantum(&self) -> (r: Self)
        requires
            time_wf(self@),
            self@.secs + QUANTUM_SECS <= MAX_SECS,
        ensures
            time_wf(r@),
            r@.secs == self@.secs + QUANTUM_SECS,
            r@.nanos == self@.nanos,
    {
        let secs: i64 = self.secs + QUANTUM_SECS;
        let rendered = chrono_render(secs, self.nanos);
        ProveWhenTime { secs, nanos: self.nanos, rendered }
    }
}

/// The floor is monotone: an earlier instant floors to an earlier (or the
/// same) boundary.
pub proof fn lemma_floor_mono(s1: int, s2: int)
    requires
        s1 <= s2,
    ensures
        floor_secs(s1) <= floor_secs(s2),
{
    let q = QUANTUM_SECS as int;
    lemma_floor_secs(s1);
    lemma_floor_secs(s2);
    let d = floor_secs(s1) - floor_secs(s2);
    if d > 0 {
        vstd::arithmetic::div_mod::lemma_mod_adds(floor_secs(s2), d, q);
        vstd::arithmetic::div_mod::lemma_mod_bound(d, q);
        vstd::arithmetic::div_mod::lemma_fundamental_div_mod(d, q);
        assert(d % q == 0);
        assert(d == q * (d / q));
        assert(d >= q) by (nonlinear_arith)
            requires
                d == q * (d / q),
                d > 0,
                q == 300,
        ;
    }
}

/// Basic bounds of the floor: it never moves an instant forward by a full
/// quantum, never backward past the boundary, and is idempotent.
pub proof fn lemma_floor_secs(s: int)
    ensures
        s - (QUANTUM_SECS as int) < floor_secs(s) <= s,
        floor_secs(s) % (QUANTUM_SECS as int) == 0,
        floor_secs(floor_secs(s)) == floor_secs(s),
        s % (QUANTUM_SECS as int) == 0 ==> floor_secs(s) == s,
{
    let q = QUANTUM_SECS as int;
    vstd::arithmetic::div_mod::lemma_mod_bound(s, q);
    vstd::arithmetic::div_mod::lemma_fundamental_div_mod(s, q);
    assert(floor_secs(s) == q * (s / q));
    vstd::arithmetic::div_mod::lemma_mod_multiples_vanish(s / q, 0, q);
    assert(floor_secs(s) % q == 0);
}

/// Shifting by the (quantum-aligned) lower bound does not change the
/// remainder, so the executable non-negative remainder computes the
/// mathematical one.
proof fn lemma_shifted_rem(s: int)
    requires
        MIN_SECS <= s <= MAX_SECS,
    ensures
        (s - MIN_SECS) % (QUANTUM_SECS as int) == s % (QUANTUM_SECS as int),
{
    let q = QUANTUM_SECS as int;
    vstd::arithmetic::div_mod::lemma_mod_multiples_vanish(207224064, s, q);
    assert(q * 207224064 + s == s - MIN_SECS);
}

/// The ordered instants strictly between two floored bounds, stepping by one
/// quantum. The first value produced is one quantum past the floored start;
/// the floored end itself is produced exactly when it lies strictly after
/// the floored start. Building the generator again from the same bounds
/// reproduces the same sequence.
pub struct DateTimeRange {
    current: ProveWhenTime,
    end: ProveWhenTime,
}

impl DateTimeRange {
    /// The cursor: the last instant produced, or the floored start before
    /// any call. The next instant produced is one quantum past it.
    pub closed spec fn cursor(&self) -> TimeModel {
        self.current@
    }

    /// The floored upper bound.
    pub closed spec fn bound(&self) -> TimeModel {
        self.end@
    }

    /// Both ends in range and on quantum boundaries.
    pub open spec fn wf(&self) -> bool {
        &&& time_wf(self.cursor())
        &&& time_wf(self.bound())
        &&& on_boundary(self.cursor())
        &&& on_boundary(self.bound())
    }

    /// Floors both bounds and starts the cursor at the floored start.
    pub fn new(start: &ProveWhenTime, end: &ProveWhenTime) -> (r: Self)
        requires
            time_wf(start@),
            time_wf(end@),
        ensures
            r.wf(),
            r.cursor().secs == floor_secs(start@.secs),
            r.bound().secs == floor_secs(end@.secs),
    {
        DateTimeRange { current: start.floored(), end: end.floored() }
    }

    /// Parses both bounds, then floors them. Fails exactly when one of the
    /// bounds is input the parser rejects or an instant outside the
    /// representable range.
    pub fn from_strs(start: &str, end: &str) -> (r: Result<Self, Error>)
        ensures
            r is Ok <==> parse_accepted(start@) && parse_accepted(end@),
            match r {
                Ok(g) => {
                    &&& g.wf()
                    &&& g.cursor().secs == floor_secs(rfc3339_parse_of(start@).unwrap().0)
                    &&& g.bound().secs == floor_secs(rfc3339_parse_of(end@).unwrap().0)
                },
                Err(e) => e == Error::Parse,
            },
    {
        let s = match ProveWhenTime::from_str(start) {
            Ok(t) => t,
            Err(e) => {
                return Err(e);
            },
        };
        let e = match ProveWhenTime::from_str(end) {
            Ok(t) => t,
            Err(e) => {
                return Err(e);
            },
        };
        Ok(Self::new(&s, &e))
    }

    /// Advances the cursor by one quantum and produces it, as long as the
    /// cursor still lies strictly below the bound; the bound is therefore the
    /// last instant ever produced. Single pass: afterwards the generator is
    /// exhausted.
    pub fn next(&mut self) -> (r: Option<ProveWhenTime>)
        requires
            old(self).wf(),
        ensures
            final(self).wf(),
            final(self).bound() == old(self).bound(),
            if time_ns(old(self).cursor()) < time_ns(old(self).bound()) {
                &&& r is Some
                &&& r.unwrap()@ == final(self).cursor()
                &&& final(self).cursor().secs == old(self).cursor().secs + QUANTUM_SECS
                &&& final(self).cursor().nanos == 0
            } else {
                r is None && final(self).cursor() == old(self).cursor()
            },
    {
        if self.current.is_before(&self.end) {
            proof {
                lemma_quantum_step(self.cursor(), self.bound());
            }
            let stepped = self.current.plus_quantum();
            self.current = stepped;
            Some(self.current.clone())
        } else {
            None
        }
    }
}

/// How many instants a range generator with these floored bounds produces:
/// one per whole quantum from the start, the bound included.
pub open spec fn range_len(start_secs: int, end_secs: int) -> int {
    if end_secs > start_secs {
        (end_secs - start_secs) / (QUANTUM_SECS as int)
    } else {
        0
    }
}

/// Between distinct boundary-aligned instants the generator produces at
/// least one value, and its last value is the bound itself.
pub proof fn lemma_range_len_pos(start: int, end: int)
    requires
        start % (QUANTUM_SECS as int) == 0,
        end % (QUANTUM_SECS as int) == 0,
        end > start,
    ensures
        range_len(start, end) >= 1,
        start + (QUANTUM_SECS as int) * range_len(start, end) == end,
{
    let q = QUANTUM_SECS as int;
    let d = end - start;
    vstd::arithmetic::div_mod::lemma_mod_bound(d, q);
    vstd::arithmetic::div_mod::lemma_mod_adds(start, d, q);
    assert(d % q == 0);
    vstd::arithmetic::div_mod::lemma_fundamental_div_mod(d, q);
    assert(d == q * (d / q));
    let k = d / q;
    assert(d >= q) by (nonlinear_arith)
        requires
            d == q * k,
            d > 0,
            q == 300,
    ;
    vstd::arithmetic::div_mod::lemma_div_non_zero(d, q);
    assert(range_len(start, end) == d / q);
}

/// Every boundary strictly between two boundary-aligned bounds is one of
/// the instants the generator counts: its step index is within the
/// generator's length, and stepping that far from the start lands on it.
pub proof fn lemma_boundary_index(start: int, bound: int, b: int)
    requires
        start % (QUANTUM_SECS as int) == 0,
        bound % (QUANTUM_SECS as int) == 0,
        b % (QUANTUM_SECS as int) == 0,
        start < b <= bound,
    ensures
        1 <= (b - start) / (QUANTUM_SECS as int) <= range_len(start, bound),
        start + (QUANTUM_SECS as int) * ((b - start) / (QUANTUM_SECS as int)) == b,
{
    let q = QUANTUM_SECS as int;
    let d = b - start;
    vstd::arithmetic::div_mod::lemma_mod_bound(d, q);
    vstd::arithmetic::div_mod::lemma_mod_adds(start, d, q);
    assert(d % q == 0);
    vstd::arithmetic::div_mod::lemma_fundamental_div_mod(d, q);
    assert(d == q * (d / q));
    let k = d / q;
    assert(d >= q) by (nonlinear_arith)
        requires
            d == q * k,
            d > 0,
            q == 300,
    ;
    vstd::arithmetic::div_mod::lemma_div_non_zero(d, q);
    lemma_range_len_pos(start, bound);
    vstd::arithmetic::div_mod::lemma_div_is_ordered(d, bound - start, q);
}

impl DateTimeRange {
    /// Runs the generator to exhaustion and collects every instant it
    /// produces, in order: the cursor advanced by one, two, ... quanta, up
    /// to and including the bound.
    pub fn into_times(self) -> (r: Vec<ProveWhenTime>)
        requires
            self.wf(),
        ensures
            r@.len() == range_len(self.cursor().secs, self.bound().secs),
            forall|i: int|
                0 <= i < r@.len() ==> {
                    &&& time_wf(#[trigger] r@[i]@)
                    &&& r@[i]@.secs == self.cursor().secs + (QUANTUM_SECS as int) * (i + 1)
                    &&& r@[i]@.nanos == 0
                    &&& on_boundary(r@[i]@)
                },
    {
        let ghost start = self.cursor();
        let ghost bound = self.bound();
        let mut gen = self;
        let mut out: Vec<ProveWhenTime> = Vec::new();
        loop
            invariant
                gen.wf(),
                gen.bound() == bound,
                on_boundary(start),
                gen.cursor().secs == start.secs + (QUANTUM_SECS as int) * out@.len(),
                gen.cursor().nanos == 0,
                out@.len() > 0 ==> gen.cursor().secs <= bound.secs,
                forall|i: int|
                    0 <= i < out@.len() ==> {
                        &&& time_wf(#[trigger] out@[i]@)
                        &&& out@[i]@.secs == start.secs + (QUANTUM_SECS as int) * (i + 1)
                        &&& out@[i]@.nanos == 0
                        &&& on_boundary(out@[i]@)
                    },
            ensures
                time_ns(gen.cursor()) >= time_ns(gen.bound()),
                gen.bound() == bound,
                gen.cursor().secs == start.secs + (QUANTUM_SECS as int) * out@.len(),
                out@.len() > 0 ==> gen.cursor().secs <= bound.secs,
                forall|i: int|
                    0 <= i < out@.len() ==> {
                        &&& time_wf(#[trigger] out@[i]@)
                        &&& out@[i]@.secs == start.secs + (QUANTUM_SECS as int) * (i + 1)
                        &&& out@[i]@.nanos == 0
                        &&& on_boundary(out@[i]@)
                    },
            decreases bound.secs - gen.cursor().secs,
        {
            let ghost pre = gen.cursor();
            match gen.next() {
                Some(t) => {
                    proof {
                        lemma_quantum_step(pre, bound);
                        let n = out@.len() as int;
                        assert((QUANTUM_SECS as int) * (n + 1) == (QUANTUM_SECS as int) * n
                            + (QUANTUM_SECS as int)) by (nonlinear_arith);
                    }
                    out.push(t);
                },
                None => {
                    break ;
                },
            }
        }
        proof {
            lemma_ns_order(gen.cursor(), bound);
            lemma_range_count(start.secs, bound.secs, out@.len() as int);
        }
        out
    }
}

/// A run that starts on a boundary, steps by whole quanta, never passes the
/// (boundary-aligned) bound, and cannot step again, has taken exactly
/// `range_len` steps.
proof fn lemma_range_count(start: int, end: int, n: int)
    requires
        n >= 0,
        start % (QUANTUM_SECS as int) == 0,
        end % (QUANTUM_SECS as int) == 0,
        start + (QUANTUM_SECS as int) * n >= end,
        n > 0 ==> start + (QUANTUM_SECS as int) * n <= end,
    ensures
        n == range_len(start, end),
{
    let q = QUANTUM_SECS as int;
    if n == 0 {
        assert(start >= end);
    } else {
        assert(start + q * n == end);
        assert((end - start) / q == n) by (nonlinear_arith)
            requires
                q * n == end - start,
                q == 300,
                n >= 0,
        ;
    }
}

/// Between two boundary-aligned instants there is room for a whole quantum:
/// if the cursor is strictly below the bound, one step stays at or below it.
proof fn lemma_quantum_step(a: TimeModel, b: TimeModel)
    requires
        on_boundary(a),
        on_boundary(b),
        0 <= a.nanos <= MAX_NANOS,
        0 <= b.nanos <= MAX_NANOS,
        time_ns(a) < time_ns(b),
    ensures
        a.secs + QUANTUM_SECS <= b.secs,
{
    let q = QUANTUM_SECS as int;
    lemma_ns_order(a, b);
    assert(a.secs < b.secs);
    vstd::arithmetic::div_mod::lemma_fundamental_div_mod(a.secs, q);
    vstd::arithmetic::div_mod::lemma_fundamental_div_mod(b.secs, q);
    let ka = a.secs / q;
    let kb = b.secs / q;
    assert(a.secs == q * ka);
    assert(b.secs == q * kb);
    assert(a.secs + q <= b.secs) by (nonlinear_arith)
        requires
            a.secs == q * ka,
            b.secs == q * kb,
            a.secs < b.secs,
            q == 300,
    ;
}

} // verus!
