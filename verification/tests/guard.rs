use stack_guard::floor::HostStack;
use stack_guard::frame::{ParserStackFrame, PARSER_STACK_BUDGET, WEIGHT_SCALE};
use stack_guard::guard::{ParserStackGuard, ParserStackOverflow};
use stack_guard::host::{current_stack_address, BuildProfile};

const ENTRY: usize = 0x7000_0000;

/// A guard whose stack is far from its floor as long as it is asked at `ENTRY`.
fn roomy_guard() -> ParserStackGuard {
    ParserStackGuard::starting_at(ENTRY, HostStack::Opaque, BuildProfile::Release)
}

/// The number of levels that a fresh guard accepts.
fn accepted_levels(level: &[ParserStackFrame]) -> u64 {
    let mut guard = roomy_guard();
    let mut levels = 0;
    loop {
        for frame in level {
            if guard.enter_at(*frame, ENTRY).is_err() {
                return levels;
            }
        }
        levels += 1;
    }
}

#[test]
fn weights_reproduce_pinned_first_throw_depths() {
    // A depth of `d - 1` is accepted and the pinned first-throw depth `d`
    // is rejected, for every standalone edge.
    for (frame, pinned_depth) in [
        (ParserStackFrame::Parenthesized, 718),
        (ParserStackFrame::ArrayLiteral, 743),
        (ParserStackFrame::CallArguments, 743),
        (ParserStackFrame::Unary, 9330),
        (ParserStackFrame::Conditional, 8164),
        (ParserStackFrame::Arrow, 4665),
        (ParserStackFrame::Template, 635),
        (ParserStackFrame::StatementHead, 3438),
        (ParserStackFrame::Block, 3266),
        (ParserStackFrame::FunctionBody, 2613),
        (ParserStackFrame::MemberAccess, 726),
    ] {
        let weight = frame.weight();
        assert!(
            (pinned_depth - 1) * weight <= PARSER_STACK_BUDGET,
            "{frame:?} must accept depth {}",
            pinned_depth - 1
        );
        assert!(
            pinned_depth * weight > PARSER_STACK_BUDGET,
            "{frame:?} must reject at the pinned depth {pinned_depth}"
        );
    }
    // A concise arrow plus its block-body surcharge first rejects at the
    // pinned block-bodied arrow depth 1420.
    let block_arrow = ParserStackFrame::Arrow.weight() + ParserStackFrame::ArrowBlockBody.weight();
    assert!(1419 * block_arrow <= PARSER_STACK_BUDGET);
    assert!(1420 * block_arrow > PARSER_STACK_BUDGET);
    // A braced statement is a head plus a block and first rejects at 1675.
    let braced = ParserStackFrame::StatementHead.weight() + ParserStackFrame::Block.weight();
    assert!(1674 * braced <= PARSER_STACK_BUDGET);
    assert!(1675 * braced > PARSER_STACK_BUDGET);
    // The `({a: ... })` form crosses a paren plus an object edge per level and
    // first rejects at 355. One outer paren-object plus bare nested objects
    // accepts 701 object edges and rejects 702.
    let object_value =
        ParserStackFrame::Parenthesized.weight() + ParserStackFrame::ObjectLiteral.weight();
    assert!(354 * object_value <= PARSER_STACK_BUDGET);
    assert!(355 * object_value > PARSER_STACK_BUDGET);
    let outer = ParserStackFrame::Parenthesized.weight();
    let object = ParserStackFrame::ObjectLiteral.weight();
    assert!(outer + 701 * object <= PARSER_STACK_BUDGET);
    assert!(outer + 702 * object > PARSER_STACK_BUDGET);
}

#[test]
fn mixed_nesting_sums_weights_like_one_byte_budget() {
    let mut guard = ParserStackGuard::new(HostStack::Opaque, BuildProfile::Debug);
    // Two productions whose frames are each about half the pinned object
    // depth must exhaust the shared budget well before a pure run.
    let mut charged = Vec::new();
    for _ in 0..170 {
        charged.push(guard.enter(ParserStackFrame::ObjectLiteral).unwrap());
    }
    let mut paren_depth = 0_u64;
    while let Ok(weight) = guard.enter(ParserStackFrame::Parenthesized) {
        charged.push(weight);
        paren_depth += 1;
        assert!(
            paren_depth <= 718,
            "mixed nesting was not bounded by the shared budget"
        );
    }
    assert!(
        paren_depth < 718,
        "mixed object+paren nesting must reject before a pure paren run"
    );
}

#[test]
fn every_edge_has_its_exact_weight() {
    assert_eq!(ParserStackFrame::Parenthesized.weight(), 5_990_191);
    assert_eq!(ParserStackFrame::ArrayLiteral.weight(), 5_788_365);
    assert_eq!(ParserStackFrame::ObjectLiteral.weight(), 6_114_011);
    assert_eq!(ParserStackFrame::CallArguments.weight(), 5_788_365);
    assert_eq!(ParserStackFrame::Unary.weight(), 460_388);
    assert_eq!(ParserStackFrame::Conditional.weight(), 526_150);
    assert_eq!(ParserStackFrame::Arrow.weight(), 920_876);
    assert_eq!(ParserStackFrame::ArrowBlockBody.weight(), 2_105_880);
    assert_eq!(ParserStackFrame::Template.weight(), 6_774_396);
    assert_eq!(ParserStackFrame::StatementHead.weight(), 1_249_264);
    assert_eq!(ParserStackFrame::Block.weight(), 1_315_055);
    assert_eq!(ParserStackFrame::FunctionBody.weight(), 1_644_321);
    assert_eq!(ParserStackFrame::MemberAccess.weight(), 5_924_092);
    assert_eq!(PARSER_STACK_BUDGET, 1 << 32);
    assert_eq!(WEIGHT_SCALE, 1 << 32);
}

#[test]
fn each_form_overflows_first_at_its_pinned_depth() {
    use_form(&[ParserStackFrame::Parenthesized], 718);
    use_form(&[ParserStackFrame::ArrayLiteral], 743);
    use_form(
        &[
            ParserStackFrame::Parenthesized,
            ParserStackFrame::ObjectLiteral,
        ],
        355,
    );
    use_form(&[ParserStackFrame::CallArguments], 743);
    use_form(&[ParserStackFrame::Unary], 9330);
    use_form(&[ParserStackFrame::Conditional], 8164);
    use_form(&[ParserStackFrame::Arrow], 4665);
    use_form(
        &[ParserStackFrame::Arrow, ParserStackFrame::ArrowBlockBody],
        1420,
    );
    use_form(&[ParserStackFrame::Template], 635);
    use_form(&[ParserStackFrame::StatementHead], 3438);
    use_form(&[ParserStackFrame::Block], 3266);
    use_form(
        &[ParserStackFrame::StatementHead, ParserStackFrame::Block],
        1675,
    );
    use_form(&[ParserStackFrame::FunctionBody], 2613);
    use_form(&[ParserStackFrame::MemberAccess], 726);
}

fn use_form(level: &[ParserStackFrame], pinned_depth: u64) {
    assert_eq!(accepted_levels(level), pinned_depth - 1, "{level:?}");
}

#[test]
fn objects_inside_one_parenthesized_object_overflow_first_at_701() {
    let mut guard = roomy_guard();
    guard
        .enter_at(ParserStackFrame::Parenthesized, ENTRY)
        .unwrap();
    guard
        .enter_at(ParserStackFrame::ObjectLiteral, ENTRY)
        .unwrap();
    let mut nested = 0;
    while guard
        .enter_at(ParserStackFrame::ObjectLiteral, ENTRY)
        .is_ok()
    {
        nested += 1;
    }
    assert_eq!(nested, 700);
}

#[test]
fn a_quotient_weight_overflows_right_after_its_depth() {
    for depth in [1_u64, 2, 717, 9329, 65_535, 65_536] {
        let weight = WEIGHT_SCALE / depth;
        assert!(depth * weight <= PARSER_STACK_BUDGET);
        assert!((depth + 1) * weight > PARSER_STACK_BUDGET);
    }
    assert_eq!(
        ParserStackFrame::Parenthesized.weight(),
        WEIGHT_SCALE / (718 - 1)
    );
    assert_eq!(
        ParserStackFrame::Arrow.weight() + ParserStackFrame::ArrowBlockBody.weight(),
        WEIGHT_SCALE / (1420 - 1)
    );
}

#[test]
fn order_of_nesting_does_not_change_what_is_left() {
    let mut outside_in = roomy_guard();
    let mut inside_out = roomy_guard();
    for _ in 0..100 {
        outside_in
            .enter_at(ParserStackFrame::Template, ENTRY)
            .unwrap();
        inside_out.enter_at(ParserStackFrame::Block, ENTRY).unwrap();
    }
    for _ in 0..100 {
        outside_in.enter_at(ParserStackFrame::Block, ENTRY).unwrap();
        inside_out
            .enter_at(ParserStackFrame::Template, ENTRY)
            .unwrap();
    }
    loop {
        let one = outside_in.enter_at(ParserStackFrame::Unary, ENTRY);
        let other = inside_out.enter_at(ParserStackFrame::Unary, ENTRY);
        assert_eq!(one, other);
        if one.is_err() {
            break;
        }
    }
}

#[test]
fn flat_siblings_do_not_accumulate() {
    let mut guard = roomy_guard();
    for _ in 0..100_000 {
        let weight = guard
            .enter_at(ParserStackFrame::CallArguments, ENTRY)
            .unwrap();
        assert_eq!(weight, 5_788_365);
        guard.leave(weight);
    }
    for _ in 0..742 {
        guard
            .enter_at(ParserStackFrame::CallArguments, ENTRY)
            .unwrap();
    }
    assert_eq!(
        guard.enter_at(ParserStackFrame::CallArguments, ENTRY),
        Err(ParserStackOverflow)
    );
}

#[test]
fn leaving_every_production_gives_the_whole_budget_back() {
    let mut guard = roomy_guard();
    let mut charged = Vec::new();
    while let Ok(weight) = guard.enter_at(ParserStackFrame::Template, ENTRY) {
        charged.push(weight);
    }
    assert_eq!(charged.len(), 634);
    while let Some(weight) = charged.pop() {
        guard.leave(weight);
    }
    let mut again = 0;
    while guard.enter_at(ParserStackFrame::Template, ENTRY).is_ok() {
        again += 1;
    }
    assert_eq!(again, 634);
}

#[test]
fn leaving_more_than_was_charged_leaves_nothing_charged() {
    let mut guard = roomy_guard();
    guard.enter_at(ParserStackFrame::Unary, ENTRY).unwrap();
    guard.leave(u64::MAX);
    let mut depth = 0;
    while guard
        .enter_at(ParserStackFrame::Parenthesized, ENTRY)
        .is_ok()
    {
        depth += 1;
    }
    assert_eq!(depth, 717);
}

#[test]
fn a_refused_production_keeps_the_charges() {
    let mut guard = roomy_guard();
    for _ in 0..717 {
        guard
            .enter_at(ParserStackFrame::Parenthesized, ENTRY)
            .unwrap();
    }
    assert_eq!(
        guard.enter_at(ParserStackFrame::Parenthesized, ENTRY),
        Err(ParserStackOverflow)
    );
    // 349 units are left: the charges of the accepted productions stay.
    assert_eq!(PARSER_STACK_BUDGET - 717 * 5_990_191, 349);
    assert_eq!(
        guard.enter_at(ParserStackFrame::Unary, ENTRY),
        Err(ParserStackOverflow)
    );
    guard.leave(460_388 - 349);
    assert_eq!(
        guard.enter_at(ParserStackFrame::Unary, ENTRY),
        Ok(460_388)
    );
    assert_eq!(
        guard.enter_at(ParserStackFrame::Unary, ENTRY),
        Err(ParserStackOverflow)
    );
}

#[test]
fn a_million_levels_are_refused_and_the_next_guard_starts_afresh() {
    let mut guard = ParserStackGuard::new(HostStack::Opaque, BuildProfile::Release);
    let mut accepted = 0;
    for _ in 0..1_000_000 {
        if guard.enter(ParserStackFrame::Unary).is_ok() {
            accepted += 1;
        }
    }
    assert_eq!(accepted, 9329);
    let mut next = ParserStackGuard::new(HostStack::Opaque, BuildProfile::Release);
    assert_eq!(next.enter(ParserStackFrame::Unary), Ok(460_388));
}

#[test]
fn charges_already_made_only_make_nesting_shallower() {
    let mut guard = roomy_guard();
    for _ in 0..170 {
        guard
            .enter_at(ParserStackFrame::ObjectLiteral, ENTRY)
            .unwrap();
    }
    let mut depth = 0;
    while guard
        .enter_at(ParserStackFrame::Parenthesized, ENTRY)
        .is_ok()
    {
        depth += 1;
    }
    assert_eq!(depth, (PARSER_STACK_BUDGET - 170 * 6_114_011) / 5_990_191);
    assert!(depth < 717);
}

#[test]
fn the_backstop_triggers_at_the_reserve() {
    let host = HostStack::Procfs {
        maps: Some("10000000-20000000 rw-p 00000000 00:00 0\n"),
        limits: None,
    };
    for (profile, reserve) in [
        (BuildProfile::Debug, 96 * 1024),
        (BuildProfile::Release, 16 * 1024),
    ] {
        let mut guard = ParserStackGuard::starting_at(0x1800_0000, host, profile);
        let edge = 0x1000_0000 + reserve;
        assert_eq!(
            guard.enter_at(ParserStackFrame::Unary, edge + 1),
            Ok(460_388)
        );
        assert_eq!(
            guard.enter_at(ParserStackFrame::Unary, edge),
            Err(ParserStackOverflow)
        );
        assert_eq!(
            guard.enter_at(ParserStackFrame::Unary, 0),
            Err(ParserStackOverflow)
        );
    }
}

#[test]
fn a_reserve_beyond_the_last_address_admits_nothing() {
    let maps = format!("{:x}-{:x}", usize::MAX - 15, usize::MAX);
    let host = HostStack::Procfs {
        maps: Some(&maps),
        limits: None,
    };
    let mut guard = ParserStackGuard::starting_at(usize::MAX - 1, host, BuildProfile::Release);
    assert_eq!(
        guard.enter_at(ParserStackFrame::Unary, usize::MAX),
        Err(ParserStackOverflow)
    );
}

#[test]
fn a_guard_on_this_thread_reads_this_stack() {
    let here = current_stack_address();
    assert_ne!(here, 0);
    // A region that ends close below this frame leaves no room for the reserve.
    let cramped = format!("{:x}-{:x} rw-p", here - 40_000, here + 40_000);
    let mut guard = ParserStackGuard::new(
        HostStack::Procfs {
            maps: Some(&cramped),
            limits: None,
        },
        BuildProfile::Debug,
    );
    assert_eq!(
        guard.enter(ParserStackFrame::Block),
        Err(ParserStackOverflow)
    );
    // One that ends half a mebibyte lower does.
    let ample = format!("{:x}-{:x} rw-p", here - 524_288, here + 40_000);
    let mut guard = ParserStackGuard::new(
        HostStack::Procfs {
            maps: Some(&ample),
            limits: None,
        },
        BuildProfile::Debug,
    );
    assert_eq!(guard.enter(ParserStackFrame::Block), Ok(1_315_055));
}
