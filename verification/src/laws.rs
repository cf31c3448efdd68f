//! What holds of the guard over many calls.
//!
//! The laws speak of [`GuardState`], in which the contracts of
//! `ParserStackGuard` are written.
use vstd::prelude::*;

use crate::floor;
use crate::floor::HostStack;
use crate::frame::{ParserStackFrame, PARSER_STACK_BUDGET, WEIGHT_SCALE};
use crate::guard::{GuardState, ParserStackGuard};
use crate::host::{BuildProfile, RELEASE_STACK_RESERVE};

verus! {

/// The cost of crossing all of `frames`, one inside the other.
pub open spec fn total_weight(frames: Seq<ParserStackFrame>) -> nat
    decreases frames.len(),
{
    if frames.len() == 0 {
        0
    } else {
        total_weight(frames.drop_last()) + frames.last().spec_weight() as nat
    }
}

/// Entering `frames` one inside the other, the stack having grown down to
/// `addresses[i]` at the `i`th of them, is admitted at every step.
pub open spec fn admits_run(
    state: GuardState,
    frames: Seq<ParserStackFrame>,
    addresses: Seq<usize>,
) -> bool {
    forall|i: int|
        0 <= i < frames.len() ==> state.charged(total_weight(#[trigger] frames.take(i))).admits(
            frames[i],
            addresses[i],
        )
}

/// At none of `addresses` has the stack reached the reserve.
pub open spec fn clears_all(state: GuardState, addresses: Seq<usize>) -> bool {
    forall|i: int| 0 <= i < addresses.len() ==> state.clears(#[trigger] addresses[i])
}

/// An edge that was entered and left again has no effect on the guard, so
/// constructs that follow one another do not accumulate.
pub proof fn leave_undoes_enter(state: GuardState, frame: ParserStackFrame)
    ensures
        state.charged(frame.spec_weight() as nat).released(frame.spec_weight() as nat) == state,
{
}

/// Whatever is charged, an edge is admitted only while more than the reserve
/// of the build separates the stack from its floor, so the parser learns of an
/// overflow before the host stack runs out.
pub proof fn admitted_edges_keep_clear_of_the_floor(
    entry: usize,
    host: HostStack,
    profile: BuildProfile,
    charged: nat,
    frame: ParserStackFrame,
    address: usize,
)
    requires
        ParserStackGuard::fresh(entry, host, profile).charged(charged).admits(frame, address),
    ensures
        address - floor::floor_below(entry, host, profile) > profile.spec_stack_reserve()
            >= RELEASE_STACK_RESERVE,
{
}

/// Nested productions compose by summing their weights, like frames on one
/// stack of bytes: a run is admitted exactly if the sum fits in what is left
/// of the budget and the stack stays clear of the reserve throughout.
pub proof fn run_is_admitted_iff_its_sum_fits(
    state: GuardState,
    frames: Seq<ParserStackFrame>,
    addresses: Seq<usize>,
)
    requires
        state.valid(),
        addresses.len() == frames.len(),
    ensures
        admits_run(state, frames, addresses) <==> {
            &&& state.logical + total_weight(frames) <= PARSER_STACK_BUDGET
            &&& clears_all(state, addresses)
        },
{
    if admits_run(state, frames, addresses) {
        if frames.len() > 0 {
            let last = frames.len() - 1;
            assert(frames.take(last) == frames.drop_last());
        }
        assert forall|i: int| 0 <= i < addresses.len() implies state.clears(
            #[trigger] addresses[i],
        ) by {
            assert(state.charged(total_weight(frames.take(i))).admits(frames[i], addresses[i]));
        }
    }
    if state.logical + total_weight(frames) <= PARSER_STACK_BUDGET && clears_all(state, addresses) {
        assert forall|i: int| 0 <= i < frames.len() implies state.charged(
            total_weight(#[trigger] frames.take(i)),
        ).admits(frames[i], addresses[i]) by {
            assert(state.clears(addresses[i]));
            assert(frames.take(i + 1).drop_last() == frames.take(i));
            lemma_prefix_is_no_heavier(frames, i + 1);
        }
    }
}

/// A part of a run from its start costs no more than the run.
proof fn lemma_prefix_is_no_heavier(frames: Seq<ParserStackFrame>, count: int)
    requires
        0 <= count <= frames.len(),
    ensures
        total_weight(frames.take(count)) <= total_weight(frames),
    decreases frames.len(),
{
    if count == frames.len() {
        assert(frames.take(count) == frames);
    } else {
        lemma_prefix_is_no_heavier(frames.drop_last(), count);
        assert(frames.drop_last().take(count) == frames.take(count));
    }
}

/// Runs one after the other cost the sum of what each costs.
proof fn lemma_total_weight_of_concatenation(
    outer: Seq<ParserStackFrame>,
    inner: Seq<ParserStackFrame>,
)
    ensures
        total_weight(outer + inner) == total_weight(outer) + total_weight(inner),
    decreases inner.len(),
{
    if inner.len() == 0 {
        assert(outer + inner == outer);
    } else {
        lemma_total_weight_of_concatenation(outer, inner.drop_last());
        assert((outer + inner).drop_last() == outer + inner.drop_last());
    }
}

/// The order in which productions nest does not matter: runs of the same
/// edges cost the same.
pub proof fn order_of_edges_is_irrelevant(
    frames: Seq<ParserStackFrame>,
    reordered: Seq<ParserStackFrame>,
)
    requires
        frames.to_multiset() == reordered.to_multiset(),
    ensures
        total_weight(frames) == total_weight(reordered),
    decreases frames.len(),
{
    broadcast use vstd::seq_lib::group_to_multiset_ensures;

    assert(frames.len() == frames.to_multiset().len());
    assert(reordered.len() == reordered.to_multiset().len());
    if frames.len() > 0 {
        let edge = frames.last();
        assert(frames.contains(edge));
        assert(reordered.to_multiset().count(edge) > 0);
        assert(reordered.contains(edge));
        let at = reordered.index_of(edge);
        let before = reordered.take(at);
        let after = reordered.skip(at + 1);
        assert(frames.remove(frames.len() - 1) == frames.drop_last());
        assert(reordered.remove(at) == before + after);
        order_of_edges_is_irrelevant(frames.drop_last(), before + after);
        lemma_total_weight_of_concatenation(before, after);
        lemma_total_weight_of_concatenation(before.push(edge), after);
        assert(before.push(edge).drop_last() == before);
        assert(before.push(edge) + after == reordered);
    }
}

/// What a guard admits, it also admits with less charged and with a stack that
/// reaches further down: nesting inside other productions never goes deeper
/// than nesting at the top.
pub proof fn lighter_guard_admits_what_a_heavier_one_does(
    lighter: GuardState,
    heavier: GuardState,
    frames: Seq<ParserStackFrame>,
    addresses: Seq<usize>,
)
    requires
        lighter.logical <= heavier.logical,
        lighter.floor + lighter.reserve <= heavier.floor + heavier.reserve,
        admits_run(heavier, frames, addresses),
    ensures
        admits_run(lighter, frames, addresses),
{
    assert forall|i: int| 0 <= i < frames.len() implies lighter.charged(
        total_weight(#[trigger] frames.take(i)),
    ).admits(frames[i], addresses[i]) by {
        assert(heavier.charged(total_weight(frames.take(i))).admits(frames[i], addresses[i]));
    }
}

/// However deep the source nests, the guard stops it: no run is admitted, on
/// whatever stack, that has as many edges as the pinned depth of the cheapest
/// form, whichever edges they are.
pub proof fn every_admitted_run_is_bounded(
    state: GuardState,
    frames: Seq<ParserStackFrame>,
    addresses: Seq<usize>,
)
    requires
        state.valid(),
        addresses.len() == frames.len(),
        admits_run(state, frames, addresses),
    ensures
        frames.len() < NestedForm::Unary.pinned_depth(),
{
    run_is_admitted_iff_its_sum_fits(state, frames, addresses);
    lemma_every_edge_costs(frames);
}

/// No edge is cheaper than the operand of a prefix operator.
proof fn lemma_every_edge_costs(frames: Seq<ParserStackFrame>)
    ensures
        total_weight(frames) >= frames.len() * 460_388,
    decreases frames.len(),
{
    if frames.len() > 0 {
        lemma_every_edge_costs(frames.drop_last());
    }
}

/// `count` levels of nesting, each of which crosses the edges of `level`.
pub open spec fn nested(level: Seq<ParserStackFrame>, count: nat) -> Seq<ParserStackFrame>
    decreases count,
{
    if count == 0 {
        Seq::empty()
    } else {
        nested(level, (count - 1) as nat) + level
    }
}

/// Levels of nesting that cross the same edges each cost the same.
pub proof fn levels_cost_alike(level: Seq<ParserStackFrame>, count: nat)
    ensures
        total_weight(nested(level, count)) == count * total_weight(level),
        nested(level, count).len() == count * level.len(),
    decreases count,
{
    if count > 0 {
        let fewer = (count - 1) as nat;
        levels_cost_alike(level, fewer);
        lemma_total_weight_of_concatenation(nested(level, fewer), level);
        assert(count * total_weight(level) == fewer * total_weight(level) + total_weight(level))
            by (nonlinear_arith)
            requires
                count == fewer + 1,
        ;
        assert(count * level.len() == fewer * level.len() + level.len()) by (nonlinear_arith)
            requires
                count == fewer + 1,
        ;
    } else {
        assert(0 * total_weight(level) == 0) by (nonlinear_arith);
        assert(0 * level.len() == 0) by (nonlinear_arith);
    }
}

/// The ways of nesting whose depth is pinned.
pub enum NestedForm {
    /// `((...))`.
    Parenthesized,
    /// `[[...]]`.
    Array,
    /// `({a:({a:...})})`.
    ObjectValue,
    /// `f(f(...))` and `new F(new F(...))`.
    Call,
    /// `!!...`.
    Unary,
    /// `1?1?...:0:0`.
    Conditional,
    /// `x=>x=>...`.
    ConciseArrow,
    /// `x=>{x=>{...}}`.
    BlockArrow,
    /// A template inside the substitution of a template.
    Template,
    /// `if(1)if(1)...`.
    BraceFreeStatement,
    /// `{{...}}`, and `try` bodies.
    Block,
    /// `while(0){while(0){...}}`.
    BracedStatement,
    /// `function f(){function f(){...}}`.
    FunctionBody,
    /// `x[x[...]]`.
    MemberAccess,
}

impl NestedForm {
    /// The edges that one level of the form crosses.
    pub open spec fn level(self) -> Seq<ParserStackFrame> {
        match self {
            NestedForm::Parenthesized => seq![ParserStackFrame::Parenthesized],
            NestedForm::Array => seq![ParserStackFrame::ArrayLiteral],
            NestedForm::ObjectValue => seq![
                ParserStackFrame::Parenthesized,
                ParserStackFrame::ObjectLiteral,
            ],
            NestedForm::Call => seq![ParserStackFrame::CallArguments],
            NestedForm::Unary => seq![ParserStackFrame::Unary],
            NestedForm::Conditional => seq![ParserStackFrame::Conditional],
            NestedForm::ConciseArrow => seq![ParserStackFrame::Arrow],
            NestedForm::BlockArrow => seq![
                ParserStackFrame::Arrow,
                ParserStackFrame::ArrowBlockBody,
            ],
            NestedForm::Template => seq![ParserStackFrame::Template],
            NestedForm::BraceFreeStatement => seq![ParserStackFrame::StatementHead],
            NestedForm::Block => seq![ParserStackFrame::Block],
            NestedForm::BracedStatement => seq![ParserStackFrame::StatementHead, ParserStackFrame::Block],
            NestedForm::FunctionBody => seq![ParserStackFrame::FunctionBody],
            NestedForm::MemberAccess => seq![ParserStackFrame::MemberAccess],
        }
    }

    /// The smallest number of levels at which QuickJS reports a stack overflow.
    pub open spec fn pinned_depth(self) -> nat {
        match self {
            NestedForm::Parenthesized => 718,
            NestedForm::Array => 743,
            NestedForm::ObjectValue => 355,
            NestedForm::Call => 743,
            NestedForm::Unary => 9330,
            NestedForm::Conditional => 8164,
            NestedForm::ConciseArrow => 4665,
            NestedForm::BlockArrow => 1420,
            NestedForm::Template => 635,
            NestedForm::BraceFreeStatement => 3438,
            NestedForm::Block => 3266,
            NestedForm::BracedStatement => 1675,
            NestedForm::FunctionBody => 2613,
            NestedForm::MemberAccess => 726,
        }
    }
}

/// On a guard with nothing charged and a stack that stays clear of the
/// reserve, every form of nesting overflows first at its pinned depth.
pub proof fn forms_overflow_first_at_their_pinned_depth(
    state: GuardState,
    form: NestedForm,
    count: nat,
    addresses: Seq<usize>,
)
    requires
        state.logical == 0,
        addresses.len() == nested(form.level(), count).len(),
        clears_all(state, addresses),
    ensures
        admits_run(state, nested(form.level(), count), addresses) <==> count < form.pinned_depth(),
{
    let level = form.level();
    run_is_admitted_iff_its_sum_fits(state, nested(level, count), addresses);
    levels_cost_alike(level, count);
    lemma_total_weight_of_a_level(level);
    let w = total_weight(level) as int;
    let d = form.pinned_depth() as int;
    assert((d - 1) * w <= 0x1_0000_0000 < d * w) by (nonlinear_arith)
        requires
            ({
                ||| w == 5_990_191 && d == 718
                ||| w == 5_788_365 && d == 743
                ||| w == 12_104_202 && d == 355
                ||| w == 460_388 && d == 9330
                ||| w == 526_150 && d == 8164
                ||| w == 920_876 && d == 4665
                ||| w == 3_026_756 && d == 1420
                ||| w == 6_774_396 && d == 635
                ||| w == 1_249_264 && d == 3438
                ||| w == 1_315_055 && d == 3266
                ||| w == 2_564_319 && d == 1675
                ||| w == 1_644_321 && d == 2613
                ||| w == 5_924_092 && d == 726
            }),
    ;
    lemma_first_overflow(count as int, d, w, 0x1_0000_0000);
}

/// If `depth` steps of `step` exceed `total` and one step fewer does not, then
/// `count` steps fit exactly if there are fewer than `depth` of them.
proof fn lemma_first_overflow(count: int, depth: int, step: int, total: int)
    by (nonlinear_arith)
    requires
        count >= 0,
        (depth - 1) * step <= total < depth * step,
        step > 0,
    ensures
        count * step <= total <==> count < depth,
{
}

/// What a level of one or two edges costs.
proof fn lemma_total_weight_of_a_level(level: Seq<ParserStackFrame>)
    ensures
        level.len() == 1 ==> total_weight(level) == level[0].spec_weight(),
        level.len() == 2 ==> total_weight(level) == level[0].spec_weight() + level[1].spec_weight(),
{
    reveal_with_fuel(total_weight, 3);
}

/// `({a:{a:...}})`: inside one parenthesized object, object literals overflow
/// first at 701 levels.
pub proof fn nested_objects_overflow_first_at_701(
    state: GuardState,
    count: nat,
    addresses: Seq<usize>,
)
    requires
        state.logical == 0,
        addresses.len() == count + 2,
        clears_all(state, addresses),
    ensures
        admits_run(
            state,
            NestedForm::ObjectValue.level() + nested(seq![ParserStackFrame::ObjectLiteral], count),
            addresses,
        ) <==> count < 701,
{
    let outer = NestedForm::ObjectValue.level();
    let level = seq![ParserStackFrame::ObjectLiteral];
    levels_cost_alike(level, count);
    lemma_total_weight_of_a_level(outer);
    lemma_total_weight_of_a_level(level);
    lemma_total_weight_of_concatenation(outer, nested(level, count));
    assert(count * level.len() == count) by (nonlinear_arith)
        requires
            level.len() == 1,
    ;
    assert(count * total_weight(level) == 6_114_011 * count) by (nonlinear_arith)
        requires
            total_weight(level) == 6_114_011,
    ;
    run_is_admitted_iff_its_sum_fits(state, outer + nested(level, count), addresses);
}

/// A weight of `floor(WEIGHT_SCALE / depth)` fits in the budget `depth` times
/// and no more, for every depth whose square is at most [`WEIGHT_SCALE`].
pub proof fn integer_weight_overflows_after_depth(depth: nat)
    requires
        depth > 0,
        depth * depth <= WEIGHT_SCALE,
    ensures
        depth * (WEIGHT_SCALE as nat / depth) <= PARSER_STACK_BUDGET,
        (depth + 1) * (WEIGHT_SCALE as nat / depth) > PARSER_STACK_BUDGET,
{
    let scale = WEIGHT_SCALE as int;
    let d = depth as int;
    let quotient = scale / d;
    assert(d * quotient <= scale < (d + 1) * quotient) by (nonlinear_arith)
        requires
            d > 0,
            d * d <= scale,
            quotient == scale / d,
    ;
}

/// One level of a form costs the integer quotient of the scale by the deepest
/// nesting that is accepted. Forms made of a statement head, a block or an
/// object literal have weights of their own.
pub proof fn levels_weigh_an_integer_quotient(form: NestedForm)
    requires
        form !is ObjectValue,
        form !is BraceFreeStatement,
        form !is Block,
        form !is BracedStatement,
    ensures
        total_weight(form.level()) == WEIGHT_SCALE as int / (form.pinned_depth() - 1),
{
    lemma_total_weight_of_a_level(form.level());
    let w = total_weight(form.level()) as int;
    let d = form.pinned_depth() as int;
    assert(w == 0x1_0000_0000int / (d - 1)) by (nonlinear_arith)
        requires
            ({
                ||| w == 5_990_191 && d == 718
                ||| w == 5_788_365 && d == 743
                ||| w == 460_388 && d == 9330
                ||| w == 526_150 && d == 8164
                ||| w == 920_876 && d == 4665
                ||| w == 3_026_756 && d == 1420
                ||| w == 6_774_396 && d == 635
                ||| w == 1_644_321 && d == 2613
                ||| w == 5_924_092 && d == 726
            }),
    ;
}

/// A source as the guard sees it: which edges the parser crosses, one inside
/// the other or one after the other.
pub enum Nesting {
    /// No recursive edge.
    Flat,
    /// `inner` inside one edge, which is entered when the stack has grown down
    /// to `address`.
    Within { frame: ParserStackFrame, address: usize, inner: Box<Nesting> },
    /// `first`, and `rest` after it.
    Following { first: Box<Nesting>, rest: Box<Nesting> },
}

impl Nesting {
    /// The cost of the most expensive path from the outside inwards.
    pub open spec fn heaviest_path(self) -> nat
        decreases self,
    {
        match self {
            Nesting::Flat => 0,
            Nesting::Within { frame, inner, .. } => frame.spec_weight() as nat
                + inner.heaviest_path(),
            Nesting::Following { first, rest } => if first.heaviest_path()
                >= rest.heaviest_path() {
                first.heaviest_path()
            } else {
                rest.heaviest_path()
            },
        }
    }

    /// The stack stays clear of the reserve at every edge.
    pub open spec fn clears(self, state: GuardState) -> bool
        decreases self,
    {
        match self {
            Nesting::Flat => true,
            Nesting::Within { address, inner, .. } => state.clears(address) && inner.clears(state),
            Nesting::Following { first, rest } => first.clears(state) && rest.clears(state),
        }
    }

    /// Where the guard stands after a parser has entered and left every edge
    /// in turn, or `None` if the guard refused one of them.
    pub open spec fn parsed_from(self, state: GuardState) -> Option<GuardState>
        decreases self,
    {
        match self {
            Nesting::Flat => Some(state),
            Nesting::Within { frame, address, inner } => {
                let weight = frame.spec_weight() as nat;
                match inner.parsed_from(state.charged(weight)) {
                    Some(after) if state.admits(frame, address) => Some(after.released(weight)),
                    _ => None,
                }
            },
            Nesting::Following { first, rest } => match first.parsed_from(state) {
                Some(after) => rest.parsed_from(after),
                None => None,
            },
        }
    }
}

/// A source is accepted exactly if its heaviest path fits in what is left of
/// the budget and the stack stays clear of the reserve; flat siblings do not
/// accumulate. After an accepted source the guard stands where it stood before.
pub proof fn source_is_accepted_iff_its_heaviest_path_fits(source: Nesting, state: GuardState)
    requires
        state.valid(),
    ensures
        source.parsed_from(state) == (if state.logical + source.heaviest_path()
            <= PARSER_STACK_BUDGET && source.clears(state) {
            Some(state)
        } else {
            None
        }),
    decreases source,
{
    match source {
        Nesting::Flat => {},
        Nesting::Within { frame, address, inner } => {
            let inside = state.charged(frame.spec_weight() as nat);
            if inside.valid() {
                source_is_accepted_iff_its_heaviest_path_fits(*inner, inside);
                lemma_clearing_ignores_charges(*inner, state, inside);
            }
        },
        Nesting::Following { first, rest } => {
            source_is_accepted_iff_its_heaviest_path_fits(*first, state);
            source_is_accepted_iff_its_heaviest_path_fits(*rest, state);
        },
    }
}

/// Whether the stack stays clear does not depend on what is charged.
proof fn lemma_clearing_ignores_charges(source: Nesting, one: GuardState, other: GuardState)
    requires
        one.floor == other.floor,
        one.reserve == other.reserve,
    ensures
        source.clears(one) == source.clears(other),
    decreases source,
{
    match source {
        Nesting::Flat => {},
        Nesting::Within { inner, .. } => {
            lemma_clearing_ignores_charges(*inner, one, other);
        },
        Nesting::Following { first, rest } => {
            lemma_clearing_ignores_charges(*first, one, other);
            lemma_clearing_ignores_charges(*rest, one, other);
        },
    }
}

/// What the operations on a state come to, in numbers: an edge is affordable
/// if the charges and its weight make at most `2^32`, the stack is clear if
/// more than the reserve separates it from the floor, an edge is admitted if
/// both hold, and charging and releasing change the charges alone.
pub proof fn states_in_numbers(
    state: GuardState,
    frame: ParserStackFrame,
    address: usize,
    weight: nat,
)
    ensures
        state.valid() <==> state.logical <= 0x1_0000_0000,
        state.affords(frame) <==> state.logical + frame.spec_weight() <= 0x1_0000_0000,
        state.clears(address) <==> address - state.floor > state.reserve,
        state.admits(frame, address) <==> state.logical + frame.spec_weight() <= 0x1_0000_0000
            && address - state.floor > state.reserve,
        state.charged(weight).logical == state.logical + weight,
        state.charged(weight).floor == state.floor,
        state.charged(weight).reserve == state.reserve,
        state.logical >= weight ==> state.released(weight).logical == state.logical - weight,
        state.logical < weight ==> state.released(weight).logical == 0,
        state.released(weight).floor == state.floor,
        state.released(weight).reserve == state.reserve,
{
}

/// A guard that was just opened has nothing charged, whatever the host and the
/// build. Its floor is that of the stack, and it keeps the reserve of the build.
pub proof fn a_new_guard_has_nothing_charged(
    entry: usize,
    host: HostStack,
    profile: BuildProfile,
)
    ensures
        ParserStackGuard::fresh(entry, host, profile).logical == 0,
        ParserStackGuard::fresh(entry, host, profile).floor == floor::floor_below(
            entry,
            host,
            profile,
        ),
        ParserStackGuard::fresh(entry, host, profile).reserve == (match profile {
            BuildProfile::Debug => 96 * 1024int,
            BuildProfile::Release => 16 * 1024int,
        }),
{
}

/// An edge is refused for no other reason than the two limits: with `charged`
/// on a guard, it is admitted if its weight still fits in `2^32` and more than
/// the reserve of the build separates the stack from its floor.
pub proof fn edges_with_room_are_admitted(
    entry: usize,
    host: HostStack,
    profile: BuildProfile,
    charged: nat,
    frame: ParserStackFrame,
    address: usize,
)
    requires
        charged + frame.spec_weight() <= 0x1_0000_0000,
        address - floor::floor_below(entry, host, profile) > (match profile {
            BuildProfile::Debug => 96 * 1024int,
            BuildProfile::Release => 16 * 1024int,
        }),
    ensures
        ParserStackGuard::fresh(entry, host, profile).charged(charged).admits(frame, address),
{
}

/// A guard that was just opened, on whatever host and build, overflows first at
/// the pinned depth of each form, as long as its stack stays clear.
pub proof fn new_guards_overflow_first_at_the_pinned_depth(
    entry: usize,
    host: HostStack,
    profile: BuildProfile,
    form: NestedForm,
    count: nat,
    addresses: Seq<usize>,
)
    requires
        addresses.len() == nested(form.level(), count).len(),
        forall|i: int|
            0 <= i < addresses.len() ==> #[trigger] addresses[i] - floor::floor_below(
                entry,
                host,
                profile,
            ) > (match profile {
                BuildProfile::Debug => 96 * 1024int,
                BuildProfile::Release => 16 * 1024int,
            }),
    ensures
        admits_run(
            ParserStackGuard::fresh(entry, host, profile),
            nested(form.level(), count),
            addresses,
        ) <==> count < form.pinned_depth(),
{
    let state = ParserStackGuard::fresh(entry, host, profile);
    assert forall|i: int| 0 <= i < addresses.len() implies state.clears(
        #[trigger] addresses[i],
    ) by {}
    forms_overflow_first_at_their_pinned_depth(state, form, count, addresses);
}

/// The weights against the scale. A standalone edge weighs the quotient of
/// `2^32` by the deepest nesting that is accepted; a statement head and a block
/// weigh just more than the quotient by the first depth that is refused; an
/// arrow and its block body weigh the quotient together; and an object weighs
/// midway between what would make 701 and 702 of them fill the budget inside
/// one parenthesis.
pub proof fn weights_against_the_scale()
    ensures
        ParserStackFrame::Parenthesized.spec_weight() == 0x1_0000_0000int / (718 - 1),
        ParserStackFrame::ArrayLiteral.spec_weight() == 0x1_0000_0000int / (743 - 1),
        ParserStackFrame::CallArguments.spec_weight() == 0x1_0000_0000int / (743 - 1),
        ParserStackFrame::Unary.spec_weight() == 0x1_0000_0000int / (9330 - 1),
        ParserStackFrame::Conditional.spec_weight() == 0x1_0000_0000int / (8164 - 1),
        ParserStackFrame::Arrow.spec_weight() == 0x1_0000_0000int / (4665 - 1),
        ParserStackFrame::Template.spec_weight() == 0x1_0000_0000int / (635 - 1),
        ParserStackFrame::FunctionBody.spec_weight() == 0x1_0000_0000int / (2613 - 1),
        ParserStackFrame::MemberAccess.spec_weight() == 0x1_0000_0000int / (726 - 1),
        ParserStackFrame::StatementHead.spec_weight() == 0x1_0000_0000int / 3438 + 1,
        ParserStackFrame::Block.spec_weight() == 0x1_0000_0000int / 3266 + 1,
        ParserStackFrame::Arrow.spec_weight() + ParserStackFrame::ArrowBlockBody.spec_weight()
            == 0x1_0000_0000int / (1420 - 1),
        ({
            let left = 0x1_0000_0000 - ParserStackFrame::Parenthesized.spec_weight();
            ParserStackFrame::ObjectLiteral.spec_weight() == (left / 701 + left / 702) / 2
        }),
{
}

} // verus!
