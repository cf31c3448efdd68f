use stack_guard::floor::{fallback_floor, stack_floor, HostStack, MappedRegion};
use stack_guard::host::BuildProfile;
use stack_guard::text::{
    begins_with, chars_of, find, is_word, read_unsigned, split_lines, split_words, CharClass,
};

const ENTRY: usize = 0x7fff_1000;
const MIB: usize = 1024 * 1024;

const LIMITS: &str = "\
Limit                     Soft Limit           Hard Limit           Units     
Max cpu time              unlimited            unlimited            seconds   
Max stack size            8388608              unlimited            bytes     
Max core file size        0                    unlimited            bytes     
";

fn linux_floor(maps: &str, limits: Option<&str>) -> usize {
    let host = HostStack::Procfs {
        maps: Some(maps),
        limits,
    };
    stack_floor(ENTRY, host, BuildProfile::Debug)
}

#[test]
fn a_reserved_stack_ends_at_the_low_bound_of_its_region() {
    let maps = "\
55e0c000-55e2d000 r-xp 00000000 08:01 131 /usr/bin/parser
7f000000-7f001000 ---p 00000000 00:00 0
7f001000-7fff8000 rw-p 00000000 00:00 0
";
    assert_eq!(linux_floor(maps, Some(LIMITS)), 0x7f00_1000);
    assert_eq!(linux_floor(maps, None), 0x7f00_1000);
}

#[test]
fn the_main_stack_ends_a_soft_limit_below_its_top() {
    let maps = "7ffe0000-7fff8000 rw-p 00000000 00:00 0                 [stack]\n";
    assert_eq!(linux_floor(maps, Some(LIMITS)), 0x7fff_8000 - 8 * MIB);
    // Without a known limit, the mapping itself is the bound.
    assert_eq!(linux_floor(maps, None), 0x7ffe_0000);
    let unlimited = "Max stack size            unlimited            unlimited            bytes\n";
    assert_eq!(linux_floor(maps, Some(unlimited)), 0x7ffe_0000);
    // A limit above the top of the region bottoms out at zero.
    let huge = "Max stack size 4294967296000 unlimited bytes";
    assert_eq!(linux_floor(maps, Some(huge)), 0);
    // A stack past its limit: the floor lies above the entry point.
    let tiny = "Max stack size 4096 unlimited bytes";
    assert_eq!(linux_floor(maps, Some(tiny)), 0x7fff_7000);
}

#[test]
fn only_the_bare_stack_label_marks_the_main_stack() {
    for label in ["[stack:42]", "[heap]", "[stack] (deleted)", "stack", ""] {
        let maps = format!("7ffe0000-7fff8000 rw-p 00000000 00:00 0 {label}");
        assert_eq!(linux_floor(&maps, Some(LIMITS)), 0x7ffe_0000, "{label}");
    }
    // The label may be the only word after the range.
    let maps = "7ffe0000-7fff8000 [stack]";
    assert_eq!(linux_floor(maps, Some(LIMITS)), 0x7fff_8000 - 8 * MIB);
}

#[test]
fn the_last_stack_limit_prevails() {
    let maps = "7ffe0000-7fff8000 [stack]";
    let limits = "\
Max stack size 4096 x bytes
Max stack size 65536 x bytes
Max stack size unlimited x bytes
Max stack size
 Max stack size 131072 x bytes
Max stack
max stack size 131072 x bytes
";
    assert_eq!(linux_floor(maps, Some(limits)), 0x7fff_8000 - 65_536);
    assert_eq!(
        linux_floor(maps, Some("Max stack sizes 12288")),
        0x7fff_8000 - 12_288
    );
    // A limit of zero counts as none.
    assert_eq!(linux_floor(maps, Some("Max stack size 0 0 bytes")), 0x7ffe_0000);
    assert_eq!(linux_floor(maps, Some("Max stack size -1 0 bytes")), 0x7ffe_0000);
    assert_eq!(
        linux_floor(maps, Some("Max stack size +8192 0 bytes\r\n")),
        0x7fff_8000 - 8192
    );
}

#[test]
fn the_first_region_around_the_entry_decides() {
    let maps = "\
7fff1001-7fff8000 above
7fff0000-7fff1000 below
7fff1000-7fff1001 exact
7f000000-7fff8000 wide
";
    assert_eq!(linux_floor(maps, None), 0x7fff_1000);
}

#[test]
fn lines_without_a_range_are_passed_over() {
    let maps = "\n   \nrange\n7f000000\n7f00000g-7fff8000\n7f000000-\n-7fff8000\n7f000000-7fff8000-\n\
                7f000000 -7fff8000\n10000000000000000-7fff8000\n0-ffffffffffffffffff\n\
                \t7FFE0000-7FFF8000\r\n7f000000-7fff8000\n";
    assert_eq!(linux_floor(maps, None), 0x7ffe_0000);
    assert_eq!(linux_floor("+7ffd0000-+7fff8000 x", None), 0x7ffd_0000);
    assert_eq!(linux_floor("\u{a0}7ffc0000-7fff8000\u{3000}[stack]", Some("Max stack size\u{2003}4096")), 0x7fff_7000);
}

#[test]
fn a_linux_host_without_the_region_allows_six_mebibytes() {
    assert_eq!(linux_floor("", Some(LIMITS)), ENTRY - 6 * MIB);
    assert_eq!(
        linux_floor("10000-20000 rw-p [stack]", Some(LIMITS)),
        ENTRY - 6 * MIB
    );
    let unread = HostStack::Procfs {
        maps: None,
        limits: Some(LIMITS),
    };
    assert_eq!(
        stack_floor(ENTRY, unread, BuildProfile::Release),
        ENTRY - 6 * MIB
    );
    assert_eq!(fallback_floor(ENTRY), ENTRY - 6 * MIB);
    assert_eq!(fallback_floor(6 * MIB), 0);
    assert_eq!(fallback_floor(6 * MIB - 1), 0);
    assert_eq!(fallback_floor(0), 0);
}

#[test]
fn other_hosts_allow_growth_by_profile() {
    let floor = |entry, profile| stack_floor(entry, HostStack::Opaque, profile);
    assert_eq!(floor(ENTRY, BuildProfile::Debug), ENTRY - MIB);
    assert_eq!(floor(ENTRY, BuildProfile::Release), ENTRY - 5 * MIB);
    assert_eq!(floor(MIB, BuildProfile::Release), 0);
    assert_eq!(BuildProfile::Debug.stack_reserve(), 96 * 1024);
    assert_eq!(BuildProfile::Release.stack_reserve(), 16 * 1024);
    assert_eq!(BuildProfile::Debug.fallback_growth(), 1024 * 1024);
    assert_eq!(BuildProfile::Release.fallback_growth(), 5 * 1024 * 1024);
}

#[test]
fn a_region_holds_its_low_bound_and_not_its_high_one() {
    let region = MappedRegion {
        low: 16,
        high: 32,
        main_stack: false,
    };
    assert!(!region.holds(15));
    assert!(region.holds(16));
    assert!(region.holds(31));
    assert!(!region.holds(32));
}

#[test]
fn blanks_are_the_unicode_white_space() {
    for code in 0..=0x10_ffff_u32 {
        if let Some(c) = char::from_u32(code) {
            assert_eq!(CharClass::Blank.contains(c), c.is_whitespace(), "{code:x}");
            assert_eq!(CharClass::Visible.contains(c), !c.is_whitespace());
            assert_eq!(CharClass::LineFeed.contains(c), c == '\n');
            assert_eq!(CharClass::Hyphen.contains(c), c == '-');
        }
    }
}

#[test]
fn text_splits_like_a_string() {
    for text in [
        "",
        "\n",
        "\r",
        "\r\n",
        "a",
        "a\n",
        "a\nb",
        "a\r\nb\r\n",
        "a\rb\r",
        "a\r\r\n\n\nb",
        "  a  b c ",
        "\u{2028}x\u{85}y\u{1680}",
        "ünï cödé\u{3000}\u{1f600}\n\u{1f600}",
        LIMITS,
    ] {
        let chars = chars_of(text);
        let lines: Vec<String> = split_lines(&chars)
            .iter()
            .map(|line| line.iter().collect())
            .collect();
        assert_eq!(lines, text.lines().collect::<Vec<_>>());
        let words: Vec<String> = split_words(&chars)
            .iter()
            .map(|word| word.iter().collect())
            .collect();
        assert_eq!(words, text.split_whitespace().collect::<Vec<_>>());
        for prefix in ["", "a", "a\n", "Limit", "  a  b c  "] {
            assert_eq!(begins_with(&chars, prefix), text.starts_with(prefix));
            assert_eq!(is_word(&chars, prefix), text == prefix);
        }
    }
}

#[test]
fn numbers_read_like_integers() {
    let largest = usize::MAX.to_string();
    let above = (usize::MAX as u128 + 1).to_string();
    let tenfold = (usize::MAX as u128 * 10).to_string();
    let hex_largest = format!("{:x}", usize::MAX);
    for text in [
        "", "+", "-", "0", "+0", "-0", "++1", "+-1", "-1", "1+", "42", "007", "9a", "9A", "fF", "g", "G", "z",
        " 1", "1 ", "1_0", "\u{661}", "0000000000000000000000000000000000000000012", "12345678901234567890x",
        "99999999999999999999999", "ffffffffffffffffffffx", &largest, &above, &tenfold, &hex_largest,
    ] {
        for radix in [2, 8, 10, 16, 36] {
            assert_eq!(
                read_unsigned(&chars_of(text), radix),
                usize::from_str_radix(text, radix).ok(),
                "{text} in {radix}"
            );
        }
    }
}

#[test]
fn finding_starts_at_the_given_index() {
    let chars = chars_of("a-b-c");
    assert_eq!(find(&chars, 0, CharClass::Hyphen), 1);
    assert_eq!(find(&chars, 1, CharClass::Hyphen), 1);
    assert_eq!(find(&chars, 2, CharClass::Hyphen), 3);
    assert_eq!(find(&chars, 4, CharClass::Hyphen), 5);
    assert_eq!(find(&chars, 5, CharClass::Hyphen), 5);
}
