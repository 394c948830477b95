//! The composition benchmark: its samples, read from the transcript, and the nearest-rank
//! statistics that are reported of them.

use vstd::prelude::*;

use crate::number;
use crate::text;

verus! {

/// In ascending order.
pub open spec fn ascending(s: Seq<u64>) -> bool {
    forall|i: int, j: int| 0 <= i <= j < s.len() ==> s[i] <= s[j]
}

/// The samples in ascending order.
pub open spec fn in_order(s: Seq<u64>) -> Seq<u64> {
    s.sort_by(|a: u64, b: u64| a <= b)
}

/// The nearest-rank percentile `p` of samples in any order; zero of none.
pub open spec fn quantile(s: Seq<u64>, p: nat) -> u64 {
    if s.len() == 0 {
        0
    } else {
        in_order(s)[rank(s.len(), p)]
    }
}

/// Numbers have one ascending order.
pub proof fn lemma_one_order(a: Seq<u64>, s: Seq<u64>)
    requires
        ascending(a),
        a.to_multiset() == s.to_multiset(),
    ensures
        a == in_order(s),
{
    let le = |a: u64, b: u64| a <= b;
    s.lemma_sort_by_ensures(le);
    vstd::seq_lib::lemma_sorted_unique(a, in_order(s), le);
}

/// The index of the nearest-rank percentile `p` among `len` samples in order.
pub open spec fn rank(len: nat, p: nat) -> int {
    let up = (len * p + 99) / 100;
    let i = if up == 0 {
        0
    } else {
        up - 1
    };
    if i < len {
        i as int
    } else {
        len - 1
    }
}

/// `<[u64]>::sort_unstable` puts the numbers in ascending order and keeps each as often as it
/// occurred.
#[verifier::external_body]
fn sort(v: &mut Vec<u64>)
    ensures
        ascending(final(v)@),
        final(v)@.to_multiset() == old(v)@.to_multiset(),
{
    v.sort_unstable();
}

/// The nearest-rank percentile `p` of the samples, which are left in order; zero of none.
pub fn percentile(v: &mut Vec<u64>, p: usize) -> (r: u64)
    requires
        old(v).len() * p <= usize::MAX,
    ensures
        r == quantile(old(v)@, p as nat),
        final(v)@ == in_order(old(v)@),
{
    if v.len() == 0 {
        proof {
            old(v)@.to_multiset_ensures();
            lemma_one_order(old(v)@, old(v)@);
        }
        return 0;
    }
    let n: usize = v.len();
    sort(v);
    proof {
        old(v)@.to_multiset_ensures();
        v@.to_multiset_ensures();
        lemma_one_order(v@, old(v)@);
    }
    let up: usize = if n * p % 100 == 0 {
        n * p / 100
    } else {
        n * p / 100 + 1
    };
    assert(up == (n * p + 99) / 100);
    let i: usize = if up == 0 {
        0
    } else {
        up - 1
    };
    if i < n {
        v[i]
    } else {
        v[n - 1]
    }
}

/// The median: the nearest-rank fiftieth percentile.
pub fn median(v: &mut Vec<u64>) -> (r: u64)
    requires
        old(v).len() * 50 <= usize::MAX,
    ensures
        r == quantile(old(v)@, 50),
        final(v)@ == in_order(old(v)@),
{
    percentile(v, 50)
}

/// The nearest rank: of the samples in order, at least `p` in a hundred are no more than the
/// percentile, and fewer than `p` in a hundred are below it.
pub proof fn law_percentile_is_the_nearest_rank(s: Seq<u64>, p: nat)
    requires
        s.len() > 0,
        1 <= p <= 100,
    ensures
        ({
            let a = in_order(s);
            let k = rank(s.len(), p);
            let q = quantile(s, p);
            &&& ascending(a)
            &&& a.to_multiset() == s.to_multiset()
            &&& 0 <= k < a.len()
            &&& a[k] == q
            &&& forall|i: int| 0 <= i <= k ==> a[i] <= q
            &&& (k + 1) * 100 >= s.len() * p
            &&& forall|i: int| 0 <= i < a.len() && a[i] < q ==> i < k
            &&& k * 100 < s.len() * p
        }),
{
    let n = s.len();
    let a = in_order(s);
    s.lemma_sort_by_ensures(|x: u64, y: u64| x <= y);
    s.to_multiset_ensures();
    a.to_multiset_ensures();
    assert(n <= n * p <= n * 100) by (nonlinear_arith)
        requires
            n > 0,
            1 <= p <= 100,
    ;
    let k = rank(n, p);
    assert(0 <= k < n);
    assert forall|i: int, j: int| 0 <= i <= j < a.len() implies a[i] <= a[j] by {
        if i < j {
            assert((|x: u64, y: u64| x <= y)(a[i], a[j]));
        }
    }
    assert forall|i: int| 0 <= i < a.len() && a[i] < a[k] implies i < k by {
        if i >= k {
            assert(a[k] <= a[i]);
        }
    }
}

/// Appends the number that `s` reads as, if it is one of 64 bits.
pub fn push_num(into: &mut Vec<u64>, s: &str)
    ensures
        final(into)@ == match number::u64_of(s@, 10) {
            Some(n) => old(into)@.push(n),
            None => old(into)@,
        },
{
    let c = text::chars_of(s);
    push_word(into, c.as_slice());
}

fn push_word(into: &mut Vec<u64>, s: &[char])
    ensures
        final(into)@ == pushed(old(into)@, s@),
{
    match number::parse_u64(s, 10) {
        Some(n) => {
            into.push(n);
        },
        None => {},
    }
}

/// The samples with the number that `s` reads as, if it is one.
pub open spec fn pushed(v: Seq<u64>, s: Seq<char>) -> Seq<u64> {
    match number::u64_of(s, 10) {
        Some(n) => v.push(n),
        None => v,
    }
}

/// The samples of a run, in the order of the transcript.
pub struct Samples {
    /// Nanoseconds to write one row to the aperture.
    pub aperture: Vec<u64>,
    /// Nanoseconds to write one row to anonymous memory.
    pub anonymous: Vec<u64>,
    /// Pixels of damage of a frame.
    pub area: Vec<u64>,
    /// Nanoseconds of a frame composed in place.
    pub inplace: Vec<u64>,
    /// Nanoseconds of a frame composed in the shadow.
    pub shadow: Vec<u64>,
    /// Nanoseconds of a frame that fills only what is exposed.
    pub exposed: Vec<u64>,
    /// Nanoseconds of a frame that does both.
    pub both: Vec<u64>,
}

/// What [`Samples`] hold.
#[verifier::ext_equal]
pub struct Readings {
    pub aperture: Seq<u64>,
    pub anonymous: Seq<u64>,
    pub area: Seq<u64>,
    pub inplace: Seq<u64>,
    pub shadow: Seq<u64>,
    pub exposed: Seq<u64>,
    pub both: Seq<u64>,
}

impl View for Samples {
    type V = Readings;

    open spec fn view(&self) -> Readings {
        Readings {
            aperture: self.aperture@,
            anonymous: self.anonymous@,
            area: self.area@,
            inplace: self.inplace@,
            shadow: self.shadow@,
            exposed: self.exposed@,
            both: self.both@,
        }
    }
}

/// No samples.
pub open spec fn no_readings() -> Readings {
    Readings {
        aperture: Seq::empty(),
        anonymous: Seq::empty(),
        area: Seq::empty(),
        inplace: Seq::empty(),
        shadow: Seq::empty(),
        exposed: Seq::empty(),
        both: Seq::empty(),
    }
}

/// The words of a sample line of the second experiment: `e2 a inplace w shadow x exposed y both z`.
pub open spec fn is_frame_line(f: Seq<Seq<char>>) -> bool {
    &&& f.len() == 10
    &&& f[0] == "e2"@
    &&& f[2] == "inplace"@
    &&& f[4] == "shadow"@
    &&& f[6] == "exposed"@
    &&& f[8] == "both"@
}

/// The samples with what one line adds.
pub open spec fn with_line(r: Readings, line: Seq<char>) -> Readings {
    match text::split_once(line, "compose-bench: "@) {
        None => r,
        Some((_, rest)) => {
            let f = text::words(rest);
            if f.len() == 3 && f[0] == "e1"@ && f[1] == "aperture"@ {
                Readings { aperture: pushed(r.aperture, f[2]), ..r }
            } else if f.len() == 3 && f[0] == "e1"@ && f[1] == "anonymous"@ {
                Readings { anonymous: pushed(r.anonymous, f[2]), ..r }
            } else if is_frame_line(f) {
                Readings {
                    area: pushed(r.area, f[1]),
                    inplace: pushed(r.inplace, f[3]),
                    shadow: pushed(r.shadow, f[5]),
                    exposed: pushed(r.exposed, f[7]),
                    both: pushed(r.both, f[9]),
                    ..r
                }
            } else {
                r
            }
        },
    }
}

/// The samples of the lines, in order.
pub open spec fn with_lines(ls: Seq<Seq<char>>) -> Readings
    decreases ls.len(),
{
    if ls.len() == 0 {
        no_readings()
    } else {
        with_line(with_lines(ls.drop_last()), ls.last())
    }
}

fn add_line(s: &mut Samples, line: &[char])
    ensures
        final(s)@ == with_line(old(s)@, line@),
{
    match text::cut(line, "compose-bench: ") {
        None => {},
        Some((_, rest)) => {
            let f = text::words_of(rest);
            assert(text::views(f@).len() == f.len());
            assert(forall|i: int| 0 <= i < f.len() ==> text::views(f@)[i] == (#[trigger] f[i])@);
            if f.len() == 3 && text::equals(f[0], "e1") && text::equals(f[1], "aperture") {
                push_word(&mut s.aperture, f[2]);
            } else if f.len() == 3 && text::equals(f[0], "e1") && text::equals(f[1], "anonymous") {
                push_word(&mut s.anonymous, f[2]);
            } else if f.len() == 10 && text::equals(f[0], "e2") && text::equals(f[2], "inplace")
                && text::equals(f[4], "shadow") && text::equals(f[6], "exposed") && text::equals(
                f[8],
                "both",
            ) {
                push_word(&mut s.area, f[1]);
                push_word(&mut s.inplace, f[3]);
                push_word(&mut s.shadow, f[5]);
                push_word(&mut s.exposed, f[7]);
                push_word(&mut s.both, f[9]);
            }
        },
    }
}

/// The samples of a benchmark run; `None` where no frame was sampled.
pub fn read_samples(transcript: &str) -> (r: Option<Samples>)
    ensures
        ({
            let all = with_lines(text::lines(transcript@));
            match r {
                Some(s) => s@ == all && all.inplace.len() > 0,
                None => all.inplace.len() == 0,
            }
        }),
{
    let c = text::chars_of(transcript);
    let ls = text::lines_of(c.as_slice());
    let ghost all = text::lines(transcript@);
    let mut s = Samples {
        aperture: Vec::new(),
        anonymous: Vec::new(),
        area: Vec::new(),
        inplace: Vec::new(),
        shadow: Vec::new(),
        exposed: Vec::new(),
        both: Vec::new(),
    };
    let mut i: usize = 0;
    assert(s@ =~= with_lines(all.take(0)));
    while i < ls.len()
        invariant
            i <= ls.len(),
            all == text::views(ls@),
            s@ == with_lines(all.take(i as int)),
        decreases ls.len() - i,
    {
        assert(all.take(i + 1).drop_last() =~= all.take(i as int));
        assert(all.take(i + 1).last() == ls[i as int]@);
        add_line(&mut s, ls[i]);
        i = i + 1;
    }
    assert(all.take(i as int) =~= all);
    if s.inplace.len() == 0 {
        None
    } else {
        Some(s)
    }
}

/// Whether the first experiment was run: both medians are of samples.
pub fn first_experiment_ran(aperture: u64, anonymous: u64) -> (r: bool)
    ensures
        r == (aperture != 0 && anonymous != 0),
{
    aperture != 0 && anonymous != 0
}

/// A way of composing that is measured.
#[derive(Debug, Clone, Copy, PartialEq, Eq, Structural)]
pub enum Way {
    InPlace,
    Shadow,
    Exposed,
    Both,
}

/// What is reported of one way: three percentiles of its frames, in nanoseconds.
#[derive(Debug, Clone, Copy, PartialEq, Eq, Structural)]
pub struct Arm {
    pub way: Way,
    pub p50: u64,
    pub p90: u64,
    pub p99: u64,
}

/// What is reported of a run.
#[derive(Debug)]
pub struct Report {
    /// The median of the aperture's samples.
    pub aperture: u64,
    /// The median of the anonymous memory's.
    pub anonymous: u64,
    /// Whether these two can be set against each other.
    pub first_ran: bool,
    /// How many frames were composed in place.
    pub frames: usize,
    /// The median of the damage.
    pub damage: u64,
    /// The ways that were measured.
    pub arms: Vec<Arm>,
}

/// What is reported of one way.
pub open spec fn arm_of(way: Way, s: Seq<u64>) -> Arm {
    Arm { way, p50: quantile(s, 50), p90: quantile(s, 90), p99: quantile(s, 99) }
}

/// What is reported of one way, where it was measured.
pub open spec fn arms_of(way: Way, s: Seq<u64>) -> Seq<Arm> {
    if s.len() == 0 {
        Seq::empty()
    } else {
        seq![arm_of(way, s)]
    }
}

/// The percentiles of these samples can be computed.
pub open spec fn fits(s: Seq<u64>) -> bool {
    s.len() * 99 <= usize::MAX
}

proof fn lemma_order_again(s: Seq<u64>, p: nat)
    ensures
        in_order(s).len() == s.len(),
        quantile(in_order(s), p) == quantile(s, p),
        in_order(in_order(s)) == in_order(s),
{
    let le = |x: u64, y: u64| x <= y;
    let a = in_order(s);
    s.lemma_sort_by_ensures(le);
    s.to_multiset_ensures();
    a.to_multiset_ensures();
    assert forall|i: int, j: int| 0 <= i <= j < a.len() implies a[i] <= a[j] by {
        if i < j {
            assert(le(a[i], a[j]));
        }
    }
    lemma_one_order(a, a);
}

fn add_arm(arms: &mut Vec<Arm>, way: Way, v: &mut Vec<u64>)
    requires
        fits(old(v)@),
    ensures
        final(arms)@ == old(arms)@ + arms_of(way, old(v)@),
{
    if v.len() == 0 {
        assert(arms@ + Seq::<Arm>::empty() =~= arms@);
        return;
    }
    proof {
        lemma_order_again(v@, 90);
        lemma_order_again(v@, 99);
    }
    let p50: u64 = percentile(v, 50);
    let p90: u64 = percentile(v, 90);
    let p99: u64 = percentile(v, 99);
    arms.push(Arm { way, p50, p90, p99 });
    assert(arms@ =~= old(arms)@ + arms_of(way, old(v)@));
}

/// Reports on a run's samples. A way without samples is left out.
pub fn report(s: Samples) -> (r: Report)
    requires
        fits(s.aperture@),
        fits(s.anonymous@),
        fits(s.area@),
        fits(s.inplace@),
        fits(s.shadow@),
        fits(s.exposed@),
        fits(s.both@),
    ensures
        r.aperture == quantile(s.aperture@, 50),
        r.anonymous == quantile(s.anonymous@, 50),
        r.first_ran == (r.aperture != 0 && r.anonymous != 0),
        r.frames == s.inplace@.len(),
        r.damage == quantile(s.area@, 50),
        r.arms@ == arms_of(Way::InPlace, s.inplace@) + arms_of(Way::Shadow, s.shadow@) + arms_of(
            Way::Exposed,
            s.exposed@,
        ) + arms_of(Way::Both, s.both@),
{
    let mut s = s;
    let aperture: u64 = median(&mut s.aperture);
    let anonymous: u64 = median(&mut s.anonymous);
    let damage: u64 = median(&mut s.area);
    let frames: usize = s.inplace.len();
    let mut arms: Vec<Arm> = Vec::new();
    add_arm(&mut arms, Way::InPlace, &mut s.inplace);
    add_arm(&mut arms, Way::Shadow, &mut s.shadow);
    add_arm(&mut arms, Way::Exposed, &mut s.exposed);
    add_arm(&mut arms, Way::Both, &mut s.both);
    let first_ran = first_experiment_ran(aperture, anonymous);
    Report { aperture, anonymous, first_ran, frames, damage, arms }
}

/// A sample of the first experiment is counted for its own memory and no other.
pub proof fn law_a_sample_is_counted_for_its_memory(r: Readings, before: Seq<char>, n: u64)
    requires
        text::find(before + "compose-bench: "@, "compose-bench: "@) == Some(before.len() as int),
    ensures
        with_line(
            r,
            before + "compose-bench: "@ + ("e1"@ + " "@ + ("aperture"@ + " "@ + number::numeral(
                n as nat,
                10,
            ))),
        ) == (Readings { aperture: r.aperture.push(n), ..r }),
        with_line(
            r,
            before + "compose-bench: "@ + ("e1"@ + " "@ + ("anonymous"@ + " "@ + number::numeral(
                n as nat,
                10,
            ))),
        ) == (Readings { anonymous: r.anonymous.push(n), ..r }),
{
    let d = number::numeral(n as nat, 10);
    lemma_numeral_word(n);
    lemma_marks();
    text::lemma_words(d, d);
    text::lemma_words("aperture"@, d);
    text::lemma_words("anonymous"@, d);
    text::lemma_words("e1"@, "aperture"@ + " "@ + d);
    text::lemma_words("e1"@, "anonymous"@ + " "@ + d);
    text::lemma_cut_first(before, "compose-bench: "@, "e1"@ + " "@ + ("aperture"@ + " "@ + d));
    text::lemma_cut_first(before, "compose-bench: "@, "e1"@ + " "@ + ("anonymous"@ + " "@ + d));
}

proof fn lemma_numeral_word(n: u64)
    ensures
        text::is_word(number::numeral(n as nat, 10)),
        number::u64_of(number::numeral(n as nat, 10), 10) == Some(n),
{
    let d = number::numeral(n as nat, 10);
    number::law_numeral_reads_back(n as nat, 10);
    assert(number::digit_value(d[0]) < 10);
    assert forall|i: int| 0 <= i < d.len() implies !text::is_space(#[trigger] d[i]) by {
        assert(number::digit_value(d[i]) < 10);
    }
}

proof fn lemma_marks()
    ensures
        "compose-bench: "@.len() > 0,
        text::is_word("e1"@),
        text::is_word("e2"@),
        text::is_word("aperture"@),
        text::is_word("anonymous"@),
        text::is_word("inplace"@),
        text::is_word("shadow"@),
        text::is_word("exposed"@),
        text::is_word("both"@),
        "aperture"@ != "anonymous"@,
        "e1"@ != "e2"@,
{
    reveal_strlit("compose-bench: ");
    reveal_strlit("e1");
    reveal_strlit("e2");
    reveal_strlit("aperture");
    reveal_strlit("anonymous");
    reveal_strlit("inplace");
    reveal_strlit("shadow");
    reveal_strlit("exposed");
    reveal_strlit("both");
    assert("e1"@[1] != "e2"@[1]);
    assert("aperture"@.len() != "anonymous"@.len());
}

/// A frame of the second experiment is counted once for each way and once for its area, and for none
/// of the first's.
#[verifier::spinoff_prover]
#[verifier::rlimit(40)]
pub proof fn law_a_frame_is_counted_for_each_way(
    r: Readings,
    before: Seq<char>,
    area: u64,
    inplace: u64,
    shadow: u64,
    exposed: u64,
    both: u64,
)
    requires
        text::find(before + "compose-bench: "@, "compose-bench: "@) == Some(before.len() as int),
    ensures
        with_line(
            r,
            before + "compose-bench: "@ + ("e2"@ + " "@ + (number::numeral(area as nat, 10) + " "@ + (
            "inplace"@ + " "@ + (number::numeral(inplace as nat, 10) + " "@ + ("shadow"@ + " "@ + (
            number::numeral(shadow as nat, 10) + " "@ + ("exposed"@ + " "@ + (number::numeral(
                exposed as nat,
                10,
            ) + " "@ + ("both"@ + " "@ + number::numeral(both as nat, 10)))))))))),
        ) == (Readings {
            area: r.area.push(area),
            inplace: r.inplace.push(inplace),
            shadow: r.shadow.push(shadow),
            exposed: r.exposed.push(exposed),
            both: r.both.push(both),
            ..r
        }),
{
    lemma_marks();
    lemma_numeral_word(area);
    lemma_numeral_word(inplace);
    lemma_numeral_word(shadow);
    lemma_numeral_word(exposed);
    lemma_numeral_word(both);
    let z = number::numeral(both as nat, 10);
    let t8 = "both"@ + " "@ + z;
    let t7 = number::numeral(exposed as nat, 10) + " "@ + t8;
    let t6 = "exposed"@ + " "@ + t7;
    let t5 = number::numeral(shadow as nat, 10) + " "@ + t6;
    let t4 = "shadow"@ + " "@ + t5;
    let t3 = number::numeral(inplace as nat, 10) + " "@ + t4;
    let t2 = "inplace"@ + " "@ + t3;
    let t1 = number::numeral(area as nat, 10) + " "@ + t2;
    let t0 = "e2"@ + " "@ + t1;
    text::lemma_words(z, z);
    text::lemma_words("both"@, z);
    text::lemma_words(number::numeral(exposed as nat, 10), t8);
    text::lemma_words("exposed"@, t7);
    text::lemma_words(number::numeral(shadow as nat, 10), t6);
    text::lemma_words("shadow"@, t5);
    text::lemma_words(number::numeral(inplace as nat, 10), t4);
    text::lemma_words("inplace"@, t3);
    text::lemma_words(number::numeral(area as nat, 10), t2);
    text::lemma_words("e2"@, t1);
    text::lemma_cut_first(before, "compose-bench: "@, t0);
    let f = text::words(t0);
    assert(f.len() == 10);
    assert(f[0] == "e2"@);
    assert(f[2] == "inplace"@ && f[4] == "shadow"@ && f[6] == "exposed"@ && f[8] == "both"@);
}

/// A line that is none of the bench's adds nothing.
pub proof fn law_other_lines_add_nothing(r: Readings, line: Seq<char>)
    requires
        !text::contains(line, "compose-bench: "@),
    ensures
        with_line(r, line) == r,
{
    text::lemma_find(line, "compose-bench: "@);
}

/// Of a way that was measured the median, the ninetieth and the ninety-ninth percentile are reported,
/// and of one that was not, nothing.
pub proof fn law_three_percentiles_are_reported(way: Way, s: Seq<u64>)
    ensures
        s.len() == 0 ==> arms_of(way, s).len() == 0,
        s.len() > 0 ==> {
            let a = arms_of(way, s);
            let n = s.len() as int;
            &&& a.len() == 1 && a[0].way == way
            &&& a[0].p50 == in_order(s)[(n + 1) / 2 - 1]
            &&& a[0].p90 == in_order(s)[(9 * n + 9) / 10 - 1]
            &&& a[0].p99 == in_order(s)[(99 * n + 99) / 100 - 1]
        },
{
    if s.len() > 0 {
        let n = s.len() as int;
        assert((n * 50 + 99) / 100 == (n + 1) / 2);
        assert((n * 90 + 99) / 100 == (9 * n + 9) / 10);
    }
}

} // verus!
