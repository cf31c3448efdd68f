//! Where the stack of the parsing thread ends.
use vstd::prelude::*;

use crate::host::BuildProfile;
use crate::text;
use crate::text::CharClass;

verus! {

/// Stack growth allowed from the entry point when procfs does not show the
/// region that the entry point lies in: 6 MiB.
pub const UNMAPPED_GROWTH: usize = 6 * 1024 * 1024;

/// What the host tells about the stack of the parsing thread.
#[derive(Clone, Copy, Debug)]
pub enum HostStack<'a> {
    /// A Linux host: the text of `/proc/self/maps` and of `/proc/self/limits`,
    /// each `None` if it could not be read.
    Procfs { maps: Option<&'a str>, limits: Option<&'a str> },
    /// Any other host.
    Opaque,
}

/// The address `distance` bytes below `address`, or zero if there is none.
pub open spec fn lowered(address: usize, distance: usize) -> usize {
    if address >= distance {
        (address - distance) as usize
    } else {
        0
    }
}

/// One line of `/proc/self/maps`: the addresses from `low` up to, not
/// including, `high`.
#[derive(Clone, Copy, Debug, PartialEq, Eq, Structural)]
pub struct MappedRegion {
    pub low: usize,
    pub high: usize,
    /// Whether this is the growable stack of the main thread.
    pub main_stack: bool,
}

impl MappedRegion {
    /// Whether `address` lies in the region.
    pub open spec fn spec_holds(self, address: usize) -> bool {
        self.low <= address < self.high
    }

    /// Whether `address` lies in the region.
    #[verifier::when_used_as_spec(spec_holds)]
    pub fn holds(self, address: usize) -> (yes: bool)
        ensures
            yes == self.spec_holds(address),
    {
        self.low <= address && address < self.high
    }
}

/// The region that a line of `/proc/self/maps` describes. The first word is
/// the range `low-high` in hexadecimal; the last word of the main thread's
/// stack is `[stack]`. `None` if the line has no such range.
pub open spec fn region_of(line: Seq<char>) -> Option<MappedRegion> {
    let words = text::words_of(line);
    let range = words[0];
    let dash = text::find_from(range, 0, CharClass::Hyphen) as int;
    let low = text::unsigned_value(range.take(dash), 16);
    let high = text::unsigned_value(range.skip(dash + 1), 16);
    if words.len() > 0 && dash < range.len() && low is Some && high is Some {
        Some(
            MappedRegion { low: low->0, high: high->0, main_stack: words.last() == "[stack]"@ },
        )
    } else {
        None
    }
}

/// The first of the regions that `lines` describe in which `entry` lies.
pub open spec fn region_around(lines: Seq<Seq<char>>, entry: usize) -> Option<MappedRegion>
    decreases lines.len(),
{
    if lines.len() == 0 {
        None
    } else {
        match region_of(lines.first()) {
            Some(region) if region.spec_holds(entry) => Some(region),
            _ => region_around(lines.drop_first(), entry),
        }
    }
}

/// The soft stack limit in bytes that a line of `/proc/self/limits` sets:
/// the fourth word of a line that begins with `Max stack size`, if it is a
/// number.
pub open spec fn stack_limit_of(line: Seq<char>) -> Option<usize> {
    let words = text::words_of(line);
    if "Max stack size"@.is_prefix_of(line) && words.len() > 3 {
        text::unsigned_value(words[3], 10)
    } else {
        None
    }
}

/// The soft stack limit that `lines` set, the last line that sets one
/// prevailing; zero if there is none, as when the limit is `unlimited`.
pub open spec fn soft_limit(lines: Seq<Seq<char>>) -> usize
    decreases lines.len(),
{
    if lines.len() == 0 {
        0
    } else {
        match stack_limit_of(lines.last()) {
            Some(bytes) => bytes,
            None => soft_limit(lines.drop_last()),
        }
    }
}

/// The lowest usable address of the stack that fills `region`, under a soft
/// limit of `limit` bytes. The main thread's stack grows down to `limit` bytes
/// below its top; any other stack is reserved in full.
pub open spec fn region_floor(region: MappedRegion, limit: usize) -> usize {
    if region.main_stack && limit != 0 {
        lowered(region.high, limit)
    } else {
        region.low
    }
}

/// The soft stack limit that the text of `/proc/self/limits` sets.
pub open spec fn limit_in(limits: Option<&str>) -> usize {
    match limits {
        Some(limits) => soft_limit(text::lines_of(limits@)),
        None => 0,
    }
}

/// The lowest usable stack address for a parse that starts at `entry`.
pub open spec fn floor_below(entry: usize, host: HostStack, profile: BuildProfile) -> usize {
    match host {
        HostStack::Procfs { maps: Some(maps), limits } => match region_around(
            text::lines_of(maps@),
            entry,
        ) {
            Some(region) => region_floor(region, limit_in(limits)),
            None => lowered(entry, UNMAPPED_GROWTH),
        },
        HostStack::Procfs { maps: None, .. } => lowered(entry, UNMAPPED_GROWTH),
        HostStack::Opaque => lowered(entry, profile.spec_fallback_growth()),
    }
}

/// Reads a line of `/proc/self/maps`.
fn read_region(line: &[char]) -> (region: Option<MappedRegion>)
    ensures
        region == region_of(line@),
{
    let words = text::split_words(line);
    let ghost seen = text::views(words@);
    if words.len() == 0 {
        return None;
    }
    let range = words[0];
    assert(range@ == seen[0]);
    let dash: usize = text::find(range, 0, CharClass::Hyphen);
    if dash == range.len() {
        return None;
    }
    let low = text::read_unsigned(vstd::slice::slice_subrange(range, 0, dash), 16);
    let high = text::read_unsigned(
        vstd::slice::slice_subrange(range, dash + 1, range.len()),
        16,
    );
    assert(seen.last() == words@.last()@);
    let main_stack = text::is_word(words[words.len() - 1], "[stack]");
    match (low, high) {
        (Some(low), Some(high)) => Some(MappedRegion { low, high, main_stack }),
        _ => None,
    }
}

/// Finds the first region of `/proc/self/maps` in which `entry` lies.
fn find_region(maps: &str, entry: usize) -> (region: Option<MappedRegion>)
    ensures
        region == region_around(text::lines_of(maps@), entry),
{
    let chars = text::chars_of(maps);
    let lines = text::split_lines(chars.as_slice());
    let ghost seen = text::views(lines@);
    let mut next: usize = 0;
    assert(seen.skip(0) == seen);
    while next < lines.len()
        invariant
            next <= lines@.len(),
            seen == text::views(lines@),
            seen == text::lines_of(maps@),
            region_around(seen, entry) == region_around(seen.skip(next as int), entry),
        decreases lines@.len() - next,
    {
        assert(seen.skip(next as int).first() == lines@[next as int]@);
        assert(seen.skip(next as int).drop_first() == seen.skip(next + 1));
        if let Some(region) = read_region(lines[next]) {
            if region.holds(entry) {
                return Some(region);
            }
        }
        next = next + 1;
    }
    None
}

/// Reads the soft stack limit that the text of `/proc/self/limits` sets.
fn read_soft_limit(limits: &str) -> (limit: usize)
    ensures
        limit == soft_limit(text::lines_of(limits@)),
{
    let chars = text::chars_of(limits);
    let lines = text::split_lines(chars.as_slice());
    let ghost seen = text::views(lines@);
    let mut limit: usize = 0;
    let mut next: usize = 0;
    while next < lines.len()
        invariant
            next <= lines@.len(),
            seen == text::views(lines@),
            limit == soft_limit(seen.take(next as int)),
        decreases lines@.len() - next,
    {
        let line = lines[next];
        let ghost upto = seen.take(next + 1);
        assert(upto.last() == line@);
        assert(upto.drop_last() == seen.take(next as int));
        if text::begins_with(line, "Max stack size") {
            let words = text::split_words(line);
            if words.len() > 3 {
                assert(words@[3]@ == text::views(words@)[3]);
                if let Some(bytes) = text::read_unsigned(words[3], 10) {
                    limit = bytes;
                }
            }
        }
        next = next + 1;
    }
    assert(seen.take(next as int) == seen);
    limit
}

/// The lowest address to use when procfs does not show where the stack ends.
pub fn fallback_floor(entry: usize) -> (floor: usize)
    ensures
        floor == lowered(entry, UNMAPPED_GROWTH),
        entry >= 6 * 1024 * 1024 ==> entry - floor == 6 * 1024 * 1024,
        entry < 6 * 1024 * 1024 ==> floor == 0,
{
    entry.saturating_sub(UNMAPPED_GROWTH)
}

/// The lowest usable stack address for a parse that starts at `entry`. The
/// reserve is not part of it.
///
/// On Linux this is read off the region around the entry point: a thread whose
/// stack is reserved in full reports its low bound directly, while the
/// growable main `[stack]` region bottoms out at its high bound less the soft
/// stack limit. Elsewhere the stack may grow by a fixed amount that errs
/// towards an early overflow.
pub fn stack_floor(entry: usize, host: HostStack, profile: BuildProfile) -> (floor: usize)
    ensures
        floor == floor_below(entry, host, profile),
{
    match host {
        HostStack::Procfs { maps: Some(maps), limits } => {
            let limit: usize = match limits {
                Some(limits) => read_soft_limit(limits),
                None => 0,
            };
            match find_region(maps, entry) {
                Some(region) => if region.main_stack && limit != 0 {
                    region.high.saturating_sub(limit)
                } else {
                    region.low
                },
                None => fallback_floor(entry),
            }
        },
        HostStack::Procfs { maps: None, .. } => fallback_floor(entry),
        HostStack::Opaque => entry.saturating_sub(profile.fallback_growth()),
    }
}

/// `region_around` finds the first line that describes a region with `entry`
/// in it, and finds none only if no line does.
pub proof fn region_around_is_the_first(lines: Seq<Seq<char>>, entry: usize)
    ensures
        match region_around(lines, entry) {
            Some(region) => region.spec_holds(entry) && exists|i: int|
                0 <= i < lines.len() && #[trigger] region_of(lines[i]) == Some(region) && (forall|
                    j: int,
                |
                    0 <= j < i ==> !(#[trigger] region_of(lines[j]) matches Some(other)
                        && other.spec_holds(entry))),
            None => forall|j: int|
                0 <= j < lines.len() ==> !(#[trigger] region_of(lines[j]) matches Some(other)
                    && other.spec_holds(entry)),
        },
    decreases lines.len(),
{
    if lines.len() > 0 {
        let rest = lines.drop_first();
        region_around_is_the_first(rest, entry);
        let here = region_of(lines[0]) matches Some(region) && region.spec_holds(entry);
        if !here {
            assert forall|j: int| 0 < j < lines.len() implies #[trigger] region_of(lines[j])
                == region_of(rest[j - 1]) by {}
            if let Some(region) = region_around(rest, entry) {
                let i = choose|i: int|
                    0 <= i < rest.len() && #[trigger] region_of(rest[i]) == Some(region) && (
                    forall|j: int|
                        0 <= j < i ==> !(#[trigger] region_of(rest[j]) matches Some(other)
                            && other.spec_holds(entry)));
                assert(region_of(lines[i + 1]) == Some(region));
            }
        }
    }
}

/// `soft_limit` is what the last line that sets a limit says, and zero if no
/// line sets one.
pub proof fn soft_limit_is_the_last(lines: Seq<Seq<char>>)
    ensures
        (exists|i: int|
            0 <= i < lines.len() && #[trigger] stack_limit_of(lines[i]) == Some(soft_limit(lines))
                && (forall|j: int|
                i < j < lines.len() ==> #[trigger] stack_limit_of(lines[j]) is None)) || (
        soft_limit(lines) == 0 && forall|j: int|
            0 <= j < lines.len() ==> #[trigger] stack_limit_of(lines[j]) is None),
    decreases lines.len(),
{
    if lines.len() > 0 {
        let last = lines.len() - 1;
        if stack_limit_of(lines[last]) is None {
            let rest = lines.drop_last();
            soft_limit_is_the_last(rest);
            assert forall|j: int| 0 <= j < last implies #[trigger] stack_limit_of(lines[j])
                == stack_limit_of(rest[j]) by {}
            if exists|i: int|
                0 <= i < rest.len() && #[trigger] stack_limit_of(rest[i]) == Some(soft_limit(rest))
                    && (forall|j: int|
                    i < j < rest.len() ==> #[trigger] stack_limit_of(rest[j]) is None) {
                let i = choose|i: int|
                    0 <= i < rest.len() && #[trigger] stack_limit_of(rest[i]) == Some(
                        soft_limit(rest),
                    ) && (forall|j: int|
                        i < j < rest.len() ==> #[trigger] stack_limit_of(rest[j]) is None);
                assert(stack_limit_of(lines[i]) == Some(soft_limit(lines)));
            }
        }
    }
}

/// A stack that is reserved in full ends where its region does. The main
/// thread's stack ends `limit` bytes below the top of its region, and where
/// the mapping does if it has no limit.
pub proof fn region_decides_the_floor(
    entry: usize,
    maps: &str,
    limits: Option<&str>,
    profile: BuildProfile,
    region: MappedRegion,
)
    requires
        region_around(text::lines_of(maps@), entry) == Some(region),
    ensures
        ({
            let floor = floor_below(entry, HostStack::Procfs { maps: Some(maps), limits }, profile);
            let limit = limit_in(limits);
            &&& !region.main_stack || limit == 0 ==> floor == region.low
            &&& region.main_stack && 0 < limit <= region.high ==> floor == region.high - limit
            &&& region.main_stack && limit > region.high ==> floor == 0
        }),
{
}

/// The floor lies at or below the entry point, unless the parse starts on a
/// main thread whose stack has already outgrown its soft limit.
pub proof fn floor_is_at_or_below_entry(entry: usize, host: HostStack, profile: BuildProfile)
    requires
        host matches HostStack::Procfs { maps: Some(maps), limits } ==> (region_around(
            text::lines_of(maps@),
            entry,
        ) matches Some(region) ==> (region.main_stack && limit_in(limits) != 0 ==> region.high
            - limit_in(limits) <= entry)),
    ensures
        floor_below(entry, host, profile) <= entry,
{
    if let HostStack::Procfs { maps: Some(maps), .. } = host {
        region_around_is_the_first(text::lines_of(maps@), entry);
    }
}

/// Lowering an address takes the distance off it, and stops at zero.
pub proof fn lowering_takes_the_distance_off(address: usize, distance: usize)
    ensures
        address >= distance ==> address - lowered(address, distance) == distance,
        address < distance ==> lowered(address, distance) == 0,
{
}

/// A region holds the addresses from its low bound to just below its high one.
pub proof fn a_region_holds_what_lies_between_its_bounds(region: MappedRegion, address: usize)
    ensures
        region.spec_holds(address) <==> region.low <= address && address < region.high,
{
}

/// A line of `/proc/self/maps` whose first word is two hexadecimal numbers
/// with a hyphen between them is the region between those numbers, and the
/// main thread's stack exactly if more words follow and the last is `[stack]`.
/// If one of the two is no such number, the line is no region.
pub proof fn a_range_makes_a_region(
    gap: Seq<char>,
    low: Seq<char>,
    high: Seq<char>,
    rest: Seq<char>,
)
    requires
        forall|i: int| 0 <= i < gap.len() ==> text::is_white_space(#[trigger] gap[i]),
        forall|i: int| 0 <= i < low.len() ==> !text::is_white_space(#[trigger] low[i]),
        forall|i: int| 0 <= i < high.len() ==> !text::is_white_space(#[trigger] high[i]),
        !low.contains('-'),
        rest.len() > 0 ==> text::is_white_space(rest[0]),
    ensures
        ({
            let region = region_of(gap + (low + seq!['-'] + high) + rest);
            match (text::unsigned_value(low, 16), text::unsigned_value(high, 16)) {
                (Some(from), Some(to)) => {
                    &&& region is Some
                    &&& region->0.low == from
                    &&& region->0.high == to
                    &&& region->0.main_stack <==> text::words_of(rest).len() > 0
                        && text::words_of(rest).last() == "[stack]"@
                },
                _ => region is None,
            }
        }),
{
    let range = low + seq!['-'] + high;
    let line = gap + range + rest;
    assert forall|i: int| 0 <= i < range.len() implies !text::is_white_space(
        #[trigger] range[i],
    ) by {
        if i < low.len() {
            assert(range[i] == low[i]);
        } else if i > low.len() {
            assert(range[i] == high[i - low.len() - 1]);
        }
    }
    text::a_word_ends_at_a_blank(gap, range, rest);
    let words = text::words_of(line);
    assert(words[0] == range);
    assert(range[low.len() as int] == '-');
    text::find_from_is_first(range, 0, CharClass::Hyphen);
    let dash = text::find_from(range, 0, CharClass::Hyphen) as int;
    if dash < low.len() {
        assert(range[dash] == low[dash]);
        assert(low.contains(low[dash]));
    }
    assert(CharClass::Hyphen.spec_contains(range[low.len() as int]));
    assert(dash == low.len());
    assert(range.take(dash) =~= low);
    assert(range.skip(dash + 1) =~= high);
    if text::words_of(rest).len() == 0 {
        reveal_strlit("[stack]");
        assert(words.last() == range);
        if range == "[stack]"@ {
            assert("[stack]"@[low.len() as int] == '-');
        }
    } else {
        assert(words.last() == text::words_of(rest).last());
    }
}

/// A line of `/proc/self/maps` that is blank, or has no hyphen in its first
/// word, is no region.
pub proof fn a_line_without_a_range_is_no_region(
    gap: Seq<char>,
    word: Seq<char>,
    rest: Seq<char>,
)
    requires
        forall|i: int| 0 <= i < gap.len() ==> text::is_white_space(#[trigger] gap[i]),
        forall|i: int| 0 <= i < word.len() ==> !text::is_white_space(#[trigger] word[i]),
        !word.contains('-'),
        rest.len() > 0 ==> text::is_white_space(rest[0]) && word.len() > 0,
    ensures
        region_of(gap + word + rest) is None,
{
    if word.len() == 0 {
        assert(gap + word + rest =~= gap);
        text::blanks_are_no_words(gap);
    } else {
        text::a_word_ends_at_a_blank(gap, word, rest);
        text::find_from_is_first(word, 0, CharClass::Hyphen);
        let dash = text::find_from(word, 0, CharClass::Hyphen) as int;
        if dash < word.len() {
            assert(word.contains(word[dash]));
        }
    }
}

/// The words of a line that begins with `Max stack size`, up to and without
/// those behind the third.
proof fn lemma_words_of_a_limit_line(tail: Seq<char>, rest: Seq<char>)
    requires
        forall|i: int| 0 <= i < tail.len() ==> !text::is_white_space(#[trigger] tail[i]),
        rest.len() > 0 ==> text::is_white_space(rest[0]),
    ensures
        text::words_of("Max stack size"@ + tail + rest) == seq![
            "Max"@,
            "stack"@,
            "size"@ + tail,
        ] + text::words_of(rest),
{
    reveal_strlit("Max stack size");
    reveal_strlit("Max");
    reveal_strlit("stack");
    reveal_strlit("size");
    let none = Seq::<char>::empty();
    let blank = seq![' '];
    let third = "size"@ + tail;
    let from_third = blank + third + rest;
    let from_second = blank + "stack"@ + from_third;
    let line = "Max stack size"@ + tail + rest;
    assert(line =~= none + "Max"@ + from_second);
    assert forall|i: int| 0 <= i < third.len() implies !text::is_white_space(
        #[trigger] third[i],
    ) by {
        if i >= 4 {
            assert(third[i] == tail[i - 4]);
        }
    }
    text::a_word_ends_at_a_blank(none, "Max"@, from_second);
    text::a_word_ends_at_a_blank(blank, "stack"@, from_third);
    text::a_word_ends_at_a_blank(blank, third, rest);
    assert(text::words_of(line) =~= seq!["Max"@, "stack"@, third] + text::words_of(rest));
}

/// A line of `/proc/self/limits` that begins with `Max stack size` sets the
/// limit that its fourth word spells in decimal, whatever words follow that
/// one: `word` is the soft limit, and the hard limit behind it plays no part.
/// `tail` is what may stand behind `size` without a blank.
pub proof fn the_soft_limit_is_the_fourth_word(
    tail: Seq<char>,
    gap: Seq<char>,
    word: Seq<char>,
    rest: Seq<char>,
)
    requires
        forall|i: int| 0 <= i < tail.len() ==> !text::is_white_space(#[trigger] tail[i]),
        gap.len() > 0,
        forall|i: int| 0 <= i < gap.len() ==> text::is_white_space(#[trigger] gap[i]),
        word.len() > 0,
        forall|i: int| 0 <= i < word.len() ==> !text::is_white_space(#[trigger] word[i]),
        rest.len() > 0 ==> text::is_white_space(rest[0]),
    ensures
        stack_limit_of("Max stack size"@ + tail + (gap + word + rest)) == text::unsigned_value(
            word,
            10,
        ),
{
    let line = "Max stack size"@ + tail + (gap + word + rest);
    lemma_words_of_a_limit_line(tail, gap + word + rest);
    text::a_word_ends_at_a_blank(gap, word, rest);
    assert(line.subrange(0, "Max stack size"@.len() as int) =~= "Max stack size"@);
    assert(text::words_of(line)[3] == word);
}

/// A line of `/proc/self/limits` sets no stack limit if it does not begin with
/// `Max stack size`, or if nothing but white space follows its third word.
pub proof fn other_lines_set_no_limit(line: Seq<char>, tail: Seq<char>, gap: Seq<char>)
    requires
        forall|i: int| 0 <= i < tail.len() ==> !text::is_white_space(#[trigger] tail[i]),
        forall|i: int| 0 <= i < gap.len() ==> text::is_white_space(#[trigger] gap[i]),
        !"Max stack size"@.is_prefix_of(line) || line == "Max stack size"@ + tail + gap,
    ensures
        stack_limit_of(line) is None,
{
    if line == "Max stack size"@ + tail + gap {
        lemma_words_of_a_limit_line(tail, gap);
        text::blanks_are_no_words(gap);
    }
}

/// A region counts wherever its line stands in `/proc/self/maps`, whatever
/// else the file holds: if `entry` lies in it, and in no region before it, it
/// is the region around `entry`.
pub proof fn a_region_counts_wherever_it_stands(
    before: Seq<char>,
    line: Seq<char>,
    after: Seq<char>,
    entry: usize,
)
    requires
        before.len() > 0 ==> before.last() == '\n',
        region_around(text::lines_of(before), entry) is None,
        text::lines_of(line).len() == 1,
        region_of(text::lines_of(line)[0]) matches Some(region) && region.low <= entry
            < region.high,
        after.len() > 0 ==> line.last() == '\n',
    ensures
        region_around(text::lines_of(before + line + after), entry) == region_of(
            text::lines_of(line)[0],
        ),
{
    lemma_lines_around(before, line, after);
    lemma_region_around_parts(text::lines_of(before), text::lines_of(line), entry);
    lemma_region_around_parts(
        text::lines_of(before) + text::lines_of(line),
        text::lines_of(after),
        entry,
    );
    assert(text::lines_of(line).first() == text::lines_of(line)[0]);
}

/// A stack limit counts wherever its line stands in `/proc/self/limits`,
/// whatever else the file holds, unless a line behind it sets one.
pub proof fn a_limit_counts_wherever_it_stands(
    before: Seq<char>,
    line: Seq<char>,
    after: Seq<char>,
)
    requires
        before.len() > 0 ==> before.last() == '\n',
        text::lines_of(line).len() == 1,
        stack_limit_of(text::lines_of(line)[0]) is Some,
        after.len() > 0 ==> line.last() == '\n',
        forall|i: int|
            0 <= i < text::lines_of(after).len() ==> stack_limit_of(
                #[trigger] text::lines_of(after)[i],
            ) is None,
    ensures
        stack_limit_of(text::lines_of(line)[0]) == Some(
            soft_limit(text::lines_of(before + line + after)),
        ),
{
    lemma_lines_around(before, line, after);
    let lines = text::lines_of(before + line + after);
    let at = text::lines_of(before).len() as int;
    assert(lines[at] == text::lines_of(line)[0]);
    assert forall|j: int| at < j < lines.len() implies #[trigger] stack_limit_of(
        lines[j],
    ) is None by {
        assert(lines[j] == text::lines_of(after)[j - at - 1]);
    }
    soft_limit_is_the_last(lines);
    let i = choose|i: int|
        0 <= i < lines.len() && #[trigger] stack_limit_of(lines[i]) == Some(soft_limit(lines)) && (
        forall|j: int| i < j < lines.len() ==> #[trigger] stack_limit_of(lines[j]) is None);
    assert(stack_limit_of(lines[at]) is Some);
    assert(i == at);
}

/// The lines of three parts that are cut behind line feeds.
proof fn lemma_lines_around(before: Seq<char>, line: Seq<char>, after: Seq<char>)
    requires
        before.len() > 0 ==> before.last() == '\n',
        line.len() > 0 && after.len() > 0 ==> line.last() == '\n',
        text::lines_of(line).len() == 1,
    ensures
        text::lines_of(before + line + after) == text::lines_of(before) + text::lines_of(line)
            + text::lines_of(after),
{
    text::one_line_per_line_feed(line);
    if line.len() == 0 {
        text::text_without_line_feed_is_one_line(line);
    }
    text::lines_of_parts(before, line);
    if after.len() > 0 {
        assert((before + line).last() == line.last());
        text::lines_of_parts(before + line, after);
    } else {
        assert(before + line + after =~= before + line);
        text::text_without_line_feed_is_one_line(after);
        assert(text::lines_of(after) =~= Seq::<Seq<char>>::empty());
    }
}

/// The region around `entry` is looked for in the first lines first.
proof fn lemma_region_around_parts(first: Seq<Seq<char>>, rest: Seq<Seq<char>>, entry: usize)
    ensures
        region_around(first + rest, entry) == (match region_around(first, entry) {
            Some(region) => Some(region),
            None => region_around(rest, entry),
        }),
    decreases first.len(),
{
    if first.len() == 0 {
        assert(first + rest =~= rest);
    } else {
        lemma_region_around_parts(first.drop_first(), rest, entry);
        assert((first + rest).drop_first() =~= first.drop_first() + rest);
        assert((first + rest).first() == first.first());
    }
}

/// The limit is that of all lines of the file, and zero without a file.
pub proof fn the_limit_is_read_off_the_whole_file(limits: &str)
    ensures
        limit_in(Some(limits)) == soft_limit(text::lines_of(limits@)),
        limit_in(None) == 0,
{
}

/// On a Linux host that does not show the region around the entry point, the
/// stack may grow by 6 MiB from there, or to address zero.
pub proof fn unmapped_stacks_may_grow_by_six_mebibytes(
    entry: usize,
    maps: Option<&str>,
    limits: Option<&str>,
    profile: BuildProfile,
)
    requires
        maps matches Some(maps) ==> region_around(text::lines_of(maps@), entry) is None,
    ensures
        ({
            let floor = floor_below(entry, HostStack::Procfs { maps, limits }, profile);
            &&& entry >= 6 * 1024 * 1024 ==> entry - floor == 6 * 1024 * 1024
            &&& entry < 6 * 1024 * 1024 ==> floor == 0
        }),
{
}

/// On any other host the stack may grow by 1 MiB from the entry point in a
/// debug build and by 5 MiB in a release build, or to address zero.
pub proof fn opaque_stacks_may_grow_by_a_fixed_amount(entry: usize, profile: BuildProfile)
    ensures
        ({
            let floor = floor_below(entry, HostStack::Opaque, profile);
            let growth = match profile {
                BuildProfile::Debug => 1024 * 1024int,
                BuildProfile::Release => 5 * 1024 * 1024int,
            };
            &&& entry >= growth ==> entry - floor == growth
            &&& entry < growth ==> floor == 0
        }),
{
}

} // verus!
