//! The decode strategy chain: per format, an ordered list of strategies, each
//! an ordered list of attempts, tried until one succeeds, all fail, or the
//! time budget runs out. The chain decides; the caller performs each attempt
//! and reports back.
use vstd::prelude::*;
use crate::error::DecodeError;
use crate::format::{classify_format, format_of, FormatTag};

verus! {

/// Time budget of a chain, in milliseconds. It is checked between
/// strategies only.
pub const BUDGET_MS: u64 = 4000;

/// The embedded preview images that the metadata tool is asked for, in this
/// order.
#[derive(Clone, Copy, Debug, PartialEq, Eq, Structural)]
pub enum PreviewTag {
    PreviewImage,
    JpgFromRaw,
    ThumbnailImage,
    OtherImage,
    EmbeddedImage,
}

/// The external RAW converters that the chain runs.
#[derive(Clone, Copy, Debug, PartialEq, Eq, Structural)]
pub enum Converter {
    /// The generic RAW converter.
    Dcraw,
    /// The converter built on the vendor-aware RAW library.
    DcrawEmu,
}

/// Argument profiles of the full decodes, whose pixels come on standard
/// output.
#[derive(Clone, Copy, Debug, PartialEq, Eq, Structural)]
pub enum Profile {
    /// Half size, fast interpolation.
    QuickHalf,
    /// Vendor converter: quick interpolation, half size, fixed pattern noise
    /// reduction, raw colour.
    FujiFast,
    /// Vendor converter: as `FujiFast` with the X-Trans sensor mode.
    FujiXtrans,
    /// Camera white balance, half size, fast, raw colour.
    Sony,
    /// Camera white balance, half size, fast.
    Canon,
    /// Camera white balance, half size, fast, sRGB.
    Nikon,
    /// Camera white balance, half size, fast.
    Generic,
    /// Vendor converter, TIFF output, half size, fast.
    GenericTiff,
}

/// One attempt at producing the destination image.
#[derive(Clone, Copy, Debug, PartialEq, Eq, Structural)]
pub enum Attempt {
    /// The metadata tool writes the named embedded preview to the
    /// destination.
    Preview(PreviewTag),
    /// The converter extracts the embedded thumbnail beside the source; it is
    /// then copied to the destination.
    Thumbnail(Converter),
    /// A full decode whose pixel stream is captured, decoded and re-encoded.
    Stream(Profile),
    /// The in-process sensor decode.
    Sensor,
}

/// Where a chain stands: the strategy and the attempt within it.
#[derive(Clone, Copy, Debug, PartialEq, Eq, Structural)]
pub struct Position {
    pub strategy: usize,
    pub attempt: usize,
}

/// How a chain ended.
#[derive(Clone, Copy, Debug, PartialEq, Eq, Structural)]
pub enum ChainEnd {
    /// The attempt that produced the destination.
    Succeeded(Attempt),
    /// A strategy failed after the budget was spent, with strategies left.
    TimedOut,
    /// Every attempt failed.
    Exhausted,
}

/// What the chain asks for next.
#[derive(Clone, Copy, Debug, PartialEq, Eq, Structural)]
pub enum Transition {
    /// Perform the attempt at this position and report its outcome.
    Run(Position),
    /// The chain is over.
    Done(ChainEnd),
}

/// The embedded-preview attempts of the metadata tool.
pub open spec fn preview_attempts() -> Seq<Attempt> {
    seq![
        Attempt::Preview(PreviewTag::PreviewImage),
        Attempt::Preview(PreviewTag::JpgFromRaw),
        Attempt::Preview(PreviewTag::ThumbnailImage),
        Attempt::Preview(PreviewTag::OtherImage),
        Attempt::Preview(PreviewTag::EmbeddedImage),
    ]
}

/// The strategies of a format, in order.
pub open spec fn plan_of(tag: FormatTag) -> Seq<Seq<Attempt>> {
    if tag == FormatTag::Raf {
        seq![
            preview_attempts(),
            seq![Attempt::Thumbnail(Converter::Dcraw), Attempt::Stream(Profile::QuickHalf)],
            seq![
                Attempt::Thumbnail(Converter::DcrawEmu),
                Attempt::Stream(Profile::FujiFast),
                Attempt::Stream(Profile::FujiXtrans),
            ],
        ]
    } else {
        let preview = seq![preview_attempts().push(Attempt::Thumbnail(Converter::Dcraw))];
        let tuned = match tag {
            FormatTag::Arw => seq![seq![Attempt::Stream(Profile::Sony)]],
            FormatTag::Canon => seq![seq![Attempt::Stream(Profile::Canon)]],
            FormatTag::Nef => seq![seq![Attempt::Stream(Profile::Nikon)]],
            _ => Seq::empty(),
        };
        preview + tuned + seq![
            seq![Attempt::Sensor],
            seq![Attempt::Stream(Profile::Generic), Attempt::Stream(Profile::GenericTiff)],
        ]
    }
}

/// The attempt vectors of a plan, as sequences.
pub open spec fn plan_view(v: Seq<Vec<Attempt>>) -> Seq<Seq<Attempt>> {
    v.map_values(|s: Vec<Attempt>| s@)
}

/// A position that names an attempt of the plan.
pub open spec fn valid(plan: Seq<Seq<Attempt>>, pos: Position) -> bool {
    pos.strategy < plan.len() && pos.attempt < plan[pos.strategy as int].len()
}

/// Every strategy of the plan has at least one attempt.
pub open spec fn well_formed(plan: Seq<Seq<Attempt>>) -> bool {
    plan.len() > 0 && forall|s: int| 0 <= s < plan.len() ==> plan[s].len() > 0
}

/// One move of the chain, after the attempt at `pos` succeeded (`ok`) or
/// failed, with `late` telling whether the budget is spent.
pub open spec fn step(plan: Seq<Seq<Attempt>>, pos: Position, ok: bool, late: bool) -> Transition {
    if ok {
        Transition::Done(ChainEnd::Succeeded(plan[pos.strategy as int][pos.attempt as int]))
    } else if pos.attempt + 1 < plan[pos.strategy as int].len() {
        Transition::Run(Position { strategy: pos.strategy, attempt: (pos.attempt + 1) as usize })
    } else if pos.strategy + 1 >= plan.len() {
        Transition::Done(ChainEnd::Exhausted)
    } else if late {
        Transition::Done(ChainEnd::TimedOut)
    } else {
        Transition::Run(Position { strategy: (pos.strategy + 1) as usize, attempt: 0 })
    }
}

/// How a chain ends from strategy `s`, attempt `i`, when each attempt `a` succeeds exactly when
/// `ok(a)`, and the budget is spent after strategy `s` exactly when
/// `late(s)`: `step` applied until the chain is done.
pub open spec fn drive(
    plan: Seq<Seq<Attempt>>,
    s: int,
    i: int,
    ok: spec_fn(Attempt) -> bool,
    late: spec_fn(int) -> bool,
) -> ChainEnd
    decreases plan.len() - s, plan[s].len() - i,
{
    if !(0 <= s < plan.len() && 0 <= i < plan[s].len()) {
        ChainEnd::Exhausted
    } else if ok(plan[s][i]) {
        ChainEnd::Succeeded(plan[s][i])
    } else if i + 1 < plan[s].len() {
        drive(plan, s, i + 1, ok, late)
    } else if s + 1 >= plan.len() {
        ChainEnd::Exhausted
    } else if late(s) {
        ChainEnd::TimedOut
    } else {
        drive(plan, s + 1, 0, ok, late)
    }
}

/// The attempt vector of the preview strategy of the metadata tool.
fn preview_vec() -> (r: Vec<Attempt>)
    ensures
        r@ == preview_attempts(),
{
    let r = vec![
        Attempt::Preview(PreviewTag::PreviewImage),
        Attempt::Preview(PreviewTag::JpgFromRaw),
        Attempt::Preview(PreviewTag::ThumbnailImage),
        Attempt::Preview(PreviewTag::OtherImage),
        Attempt::Preview(PreviewTag::EmbeddedImage),
    ];
    assert(r@ =~= preview_attempts());
    r
}

/// The strategies of a format, in order of preference.
pub fn plan_for(tag: FormatTag) -> (r: Vec<Vec<Attempt>>)
    ensures
        plan_view(r@) == plan_of(tag),
        well_formed(plan_of(tag)),
{
    proof { lemma_plan_well_formed(tag); }
    if tag == FormatTag::Raf {
        let r = vec![
            preview_vec(),
            vec![Attempt::Thumbnail(Converter::Dcraw), Attempt::Stream(Profile::QuickHalf)],
            vec![
                Attempt::Thumbnail(Converter::DcrawEmu),
                Attempt::Stream(Profile::FujiFast),
                Attempt::Stream(Profile::FujiXtrans),
            ],
        ];
        assert(plan_view(r@) =~= plan_of(tag));
        r
    } else {
        let mut first = preview_vec();
        first.push(Attempt::Thumbnail(Converter::Dcraw));
        assert(first@ =~= preview_attempts().push(Attempt::Thumbnail(Converter::Dcraw)));
        let mut r: Vec<Vec<Attempt>> = vec![first];
        let ghost tuned: Seq<Seq<Attempt>> = Seq::empty();
        match tag {
            FormatTag::Arw => {
                let t = vec![Attempt::Stream(Profile::Sony)];
                proof { tuned = seq![t@]; }
                r.push(t);
            },
            FormatTag::Canon => {
                let t = vec![Attempt::Stream(Profile::Canon)];
                proof { tuned = seq![t@]; }
                r.push(t);
            },
            FormatTag::Nef => {
                let t = vec![Attempt::Stream(Profile::Nikon)];
                proof { tuned = seq![t@]; }
                r.push(t);
            },
            _ => {},
        }
        let sensor = vec![Attempt::Sensor];
        let generic = vec![Attempt::Stream(Profile::Generic), Attempt::Stream(Profile::GenericTiff)];
        assert(sensor@ =~= seq![Attempt::Sensor]);
        assert(generic@ =~= seq![Attempt::Stream(Profile::Generic), Attempt::Stream(Profile::GenericTiff)]);
        r.push(sensor);
        r.push(generic);
        proof {
            let pv = plan_view(r@);
            let expect = plan_of(tag);
            assert(pv.len() == expect.len());
            assert forall|i: int| 0 <= i < pv.len() implies pv[i] =~= expect[i] by {}
            assert(pv =~= expect);
        }
        r
    }
}

/// The chain's next move after the attempt at `pos` succeeded or failed,
/// `elapsed_ms` after the chain started.
pub fn advance(plan: &Vec<Vec<Attempt>>, pos: Position, succeeded: bool, elapsed_ms: u64) -> (r:
    Transition)
    requires
        valid(plan_view(plan@), pos),
    ensures
        r == step(plan_view(plan@), pos, succeeded, elapsed_ms > BUDGET_MS),
        r matches Transition::Run(next) ==> valid(plan_view(plan@), next)
            || !well_formed(plan_view(plan@)),
{
    let ghost pv = plan_view(plan@);
    assert(pv[pos.strategy as int] == plan@[pos.strategy as int]@);
    let current = &plan[pos.strategy];
    if succeeded {
        Transition::Done(ChainEnd::Succeeded(current[pos.attempt]))
    } else if pos.attempt < current.len() - 1 {
        Transition::Run(Position { strategy: pos.strategy, attempt: pos.attempt + 1 })
    } else if pos.strategy >= plan.len() - 1 {
        Transition::Done(ChainEnd::Exhausted)
    } else if elapsed_ms > BUDGET_MS {
        Transition::Done(ChainEnd::TimedOut)
    } else {
        let next = Position { strategy: pos.strategy + 1, attempt: 0 };
        proof {
            if well_formed(pv) {
                assert(pv[next.strategy as int].len() > 0);
            }
        }
        Transition::Run(next)
    }
}

/// The caller-facing result of a chain's end.
pub fn end_result(end: ChainEnd) -> (r: Result<Attempt, DecodeError>)
    ensures
        match end {
            ChainEnd::Succeeded(a) => r == Ok::<Attempt, DecodeError>(a),
            ChainEnd::TimedOut => r == Err::<Attempt, DecodeError>(DecodeError::ChainTimeout),
            ChainEnd::Exhausted => r == Err::<Attempt, DecodeError>(DecodeError::ChainExhausted),
        },
{
    match end {
        ChainEnd::Succeeded(a) => Ok(a),
        ChainEnd::TimedOut => Err(DecodeError::ChainTimeout),
        ChainEnd::Exhausted => Err(DecodeError::ChainExhausted),
    }
}

/// A chain under way on one source file.
#[derive(Clone, Debug)]
pub struct ChainRun {
    pub tag: FormatTag,
    pub plan: Vec<Vec<Attempt>>,
    pub state: Transition,
}

impl ChainRun {
    /// The plan is the one of the run's format, and a running chain stands
    /// on an attempt of it.
    pub open spec fn wf(&self) -> bool {
        &&& plan_view(self.plan@) == plan_of(self.tag)
        &&& well_formed(plan_of(self.tag))
        &&& (self.state matches Transition::Run(p) ==> valid(plan_view(self.plan@), p))
    }

    /// A chain for the file at `source`, on its first attempt.
    pub fn new(source: &str) -> (r: ChainRun)
        ensures
            r.wf(),
            r.tag == format_of(source@),
            r.state == Transition::Run(Position { strategy: 0, attempt: 0 }),
    {
        let tag = classify_format(source);
        let plan = plan_for(tag);
        proof {
            assert(plan_view(plan@)[0] == plan@[0]@);
        }
        ChainRun { tag, plan, state: Transition::Run(Position { strategy: 0, attempt: 0 }) }
    }

    /// The attempt to perform next; none once the chain is over.
    pub fn current(&self) -> (r: Option<Attempt>)
        requires
            self.wf(),
        ensures
            match self.state {
                Transition::Run(p) => r == Some(
                    plan_of(self.tag)[p.strategy as int][p.attempt as int],
                ),
                Transition::Done(_) => r is None,
            },
    {
        match self.state {
            Transition::Run(p) => {
                proof {
                    assert(plan_view(self.plan@)[p.strategy as int] == self.plan@[p.strategy as int]@);
                }
                Some(self.plan[p.strategy][p.attempt])
            },
            Transition::Done(_) => None,
        }
    }

    /// Records the outcome of the current attempt, `elapsed_ms` after the
    /// chain started, and moves the chain on.
    pub fn report(&mut self, succeeded: bool, elapsed_ms: u64)
        requires
            old(self).wf(),
            old(self).state is Run,
        ensures
            final(self).wf(),
            final(self).tag == old(self).tag,
            final(self).plan@ == old(self).plan@,
            final(self).state == step(
                plan_of(old(self).tag),
                old(self).state->Run_0,
                succeeded,
                elapsed_ms > BUDGET_MS,
            ),
    {
        if let Transition::Run(p) = self.state {
            let next = advance(&self.plan, p, succeeded, elapsed_ms);
            self.state = next;
        }
    }

    /// How the chain ended: the attempt that succeeded, or the chain's
    /// error; none while it runs.
    pub fn outcome(&self) -> (r: Option<Result<Attempt, DecodeError>>)
        ensures
            match self.state {
                Transition::Run(_) => r is None,
                Transition::Done(ChainEnd::Succeeded(a)) => r == Some(
                    Ok::<Attempt, DecodeError>(a),
                ),
                Transition::Done(ChainEnd::TimedOut) => r == Some(
                    Err::<Attempt, DecodeError>(DecodeError::ChainTimeout),
                ),
                Transition::Done(ChainEnd::Exhausted) => r == Some(
                    Err::<Attempt, DecodeError>(DecodeError::ChainExhausted),
                ),
            },
    {
        match self.state {
            Transition::Run(_) => None,
            Transition::Done(end) => Some(end_result(end)),
        }
    }
}

/// `drive` is `step` repeated: from a running position, the chain ends as
/// it does from the position that `step` moves to, or as `step` ends it.
pub proof fn lemma_drive_follows_step(
    plan: Seq<Seq<Attempt>>,
    pos: Position,
    ok: spec_fn(Attempt) -> bool,
    late: spec_fn(int) -> bool,
)
    requires
        valid(plan, pos),
        plan.len() <= usize::MAX,
        plan[pos.strategy as int].len() <= usize::MAX,
    ensures
        match step(plan, pos, ok(plan[pos.strategy as int][pos.attempt as int]), late(pos.strategy as int)) {
            Transition::Run(next) => drive(plan, pos.strategy as int, pos.attempt as int, ok, late)
                == drive(plan, next.strategy as int, next.attempt as int, ok, late),
            Transition::Done(end) => drive(plan, pos.strategy as int, pos.attempt as int, ok, late)
                == end,
        },
{
}

/// Where the in-process sensor decode stands in the plan of a format other
/// than `Raf`: alone, in the strategy before the last.
proof fn lemma_plan_shape(tag: FormatTag)
    ensures
        well_formed(plan_of(tag)),
        tag != FormatTag::Raf ==> plan_of(tag).len() >= 2 && plan_of(tag)[plan_of(tag).len() - 2]
            == seq![Attempt::Sensor],
{
    let p = plan_of(tag);
    if tag == FormatTag::Raf {
        assert(p.len() == 3);
        assert(p[0].len() > 0 && p[1].len() > 0 && p[2].len() > 0);
    } else {
        let pre = preview_attempts().push(Attempt::Thumbnail(Converter::Dcraw));
        assert(pre.len() == 6);
        if tag == FormatTag::Generic {
            assert(p.len() == 3);
            assert(p[1] == seq![Attempt::Sensor]);
        } else {
            assert(p.len() == 4);
            assert(p[1].len() == 1);
            assert(p[2] == seq![Attempt::Sensor]);
        }
        assert(p[p.len() - 1].len() == 2);
    }
}

proof fn lemma_plan_well_formed(tag: FormatTag)
    ensures
        well_formed(plan_of(tag)),
{
    lemma_plan_shape(tag);
}

/// Whether position `(s2, i2)` names an attempt of the plan at or after
/// `(s, i)`.
pub open spec fn at_or_after(plan: Seq<Seq<Attempt>>, s: int, i: int, s2: int, i2: int) -> bool {
    &&& 0 <= s2 < plan.len()
    &&& 0 <= i2 < plan[s2].len()
    &&& (s < s2 || (s2 == s && i <= i2))
}

/// A chain ends `Exhausted` only when every attempt from its position on
/// failed.
pub proof fn lemma_exhausted_only_if_all_failed(
    plan: Seq<Seq<Attempt>>,
    s: int,
    i: int,
    ok: spec_fn(Attempt) -> bool,
    late: spec_fn(int) -> bool,
)
    requires
        well_formed(plan),
        0 <= s < plan.len(),
        0 <= i < plan[s].len(),
        drive(plan, s, i, ok, late) == ChainEnd::Exhausted,
    ensures
        forall|s2: int, i2: int| at_or_after(plan, s, i, s2, i2) ==> !ok(#[trigger] plan[s2][i2]),
    decreases plan.len() - s, plan[s].len() - i,
{
    if 0 <= s < plan.len() && 0 <= i < plan[s].len() {
        if i + 1 < plan[s].len() {
            lemma_exhausted_only_if_all_failed(plan, s, i + 1, ok, late);
            assert forall|s2: int, i2: int| at_or_after(plan, s, i, s2, i2) implies !ok(
                #[trigger] plan[s2][i2],
            ) by {
                if s2 == s && i2 == i {
                } else {
                    assert(at_or_after(plan, s, i + 1, s2, i2));
                }
            }
        } else if s + 1 < plan.len() {
            lemma_exhausted_only_if_all_failed(plan, s + 1, 0, ok, late);
            assert forall|s2: int, i2: int| at_or_after(plan, s, i, s2, i2) implies !ok(
                #[trigger] plan[s2][i2],
            ) by {
                if s2 == s {
                } else {
                    assert(at_or_after(plan, s + 1, 0, s2, i2));
                }
            }
        }
    }
}

/// A chain whose budget is never spent does not time out.
pub proof fn lemma_no_timeout_within_budget(
    plan: Seq<Seq<Attempt>>,
    s: int,
    i: int,
    ok: spec_fn(Attempt) -> bool,
    late: spec_fn(int) -> bool,
)
    requires
        forall|t: int| !#[trigger] late(t),
    ensures
        drive(plan, s, i, ok, late) != ChainEnd::TimedOut,
    decreases plan.len() - s, plan[s].len() - i,
{
    if 0 <= s < plan.len() && 0 <= i < plan[s].len() {
        if i + 1 < plan[s].len() {
            lemma_no_timeout_within_budget(plan, s, i + 1, ok, late);
        } else if s + 1 < plan.len() {
            lemma_no_timeout_within_budget(plan, s + 1, 0, ok, late);
        }
    }
}

/// A chain that succeeds names an attempt that succeeded.
pub proof fn lemma_success_names_successful_attempt(
    plan: Seq<Seq<Attempt>>,
    s: int,
    i: int,
    ok: spec_fn(Attempt) -> bool,
    late: spec_fn(int) -> bool,
)
    ensures
        drive(plan, s, i, ok, late) matches ChainEnd::Succeeded(a) ==> ok(a),
    decreases plan.len() - s, plan[s].len() - i,
{
    if 0 <= s < plan.len() && 0 <= i < plan[s].len() {
        if i + 1 < plan[s].len() {
            lemma_success_names_successful_attempt(plan, s, i + 1, ok, late);
        } else if s + 1 < plan.len() {
            lemma_success_names_successful_attempt(plan, s + 1, 0, ok, late);
        }
    }
}

/// For every format but `Raf`, a chain in which every external tool fails
/// and the in-process sensor decode succeeds, within the budget, ends in
/// success by the sensor decode.
pub proof fn lemma_sensor_fallback_succeeds(
    tag: FormatTag,
    ok: spec_fn(Attempt) -> bool,
    late: spec_fn(int) -> bool,
)
    requires
        tag != FormatTag::Raf,
        ok(Attempt::Sensor),
        forall|a: Attempt| a != Attempt::Sensor ==> !#[trigger] ok(a),
        forall|t: int| !#[trigger] late(t),
    ensures
        drive(plan_of(tag), 0, 0, ok, late) == ChainEnd::Succeeded(Attempt::Sensor),
{
    let plan = plan_of(tag);
    lemma_plan_shape(tag);
    lemma_no_timeout_within_budget(plan, 0, 0, ok, late);
    lemma_success_names_successful_attempt(plan, 0, 0, ok, late);
    if drive(plan, 0, 0, ok, late) == ChainEnd::Exhausted {
        lemma_exhausted_only_if_all_failed(plan, 0, 0, ok, late);
        let k = plan.len() - 2;
        assert(plan[k][0] == Attempt::Sensor);
        assert(at_or_after(plan, 0, 0, k, 0));
    }
}

/// For every format but `Raf`, a chain ends `Exhausted` only if the
/// in-process sensor decode failed too.
pub proof fn lemma_exhausted_only_if_sensor_failed(
    tag: FormatTag,
    ok: spec_fn(Attempt) -> bool,
    late: spec_fn(int) -> bool,
)
    requires
        tag != FormatTag::Raf,
        drive(plan_of(tag), 0, 0, ok, late) == ChainEnd::Exhausted,
    ensures
        !ok(Attempt::Sensor),
{
    let plan = plan_of(tag);
    lemma_plan_shape(tag);
    lemma_exhausted_only_if_all_failed(plan, 0, 0, ok, late);
    let k = plan.len() - 2;
    assert(plan[k][0] == Attempt::Sensor);
    assert(at_or_after(plan, 0, 0, k, 0));
}

} // verus!
