use vecfind::find_substr;
use vecfind::find_substr_simd;
use vecfind::test_baseline;
use vecfind::test_simd_v1;

/// A plain forward scan, used as the reference answer.
fn naive_find(needle: &[u8], haystack: &[u8]) -> Option<usize> {
    if needle.is_empty() {
        return Some(0);
    }
    if needle.len() > haystack.len() {
        return None;
    }
    for o in 0..=(haystack.len() - needle.len()) {
        if &haystack[o..o + needle.len()] == needle {
            return Some(o);
        }
    }
    None
}

fn check_both(needle: &[u8], haystack: &[u8], expected: Option<usize>) {
    assert_eq!(find_substr(needle, haystack), expected);
    assert_eq!(find_substr_simd(needle, haystack), expected);
}

#[test]
fn scenario_leftmost_of_two() {
    check_both(b"ab", b"xababc", Some(1));
}

#[test]
fn scenario_word_in_sentence() {
    let haystack = b"...please subscribe to our newsletter today...";
    let expected = naive_find(b"newsletter", haystack);
    assert_eq!(expected, Some(27));
    check_both(b"newsletter", haystack, expected);
}

#[test]
fn scenario_absent_needle() {
    check_both(b"zzz", b"abcdef", None);
}

#[test]
fn scenario_needle_equals_haystack() {
    check_both(b"abcdef", b"abcdef", Some(0));
}

#[test]
fn scenario_needle_longer_than_haystack() {
    check_both(b"ab", b"a", None);
}

#[test]
fn empty_needle_matches_at_zero() {
    check_both(b"", b"abcdef", Some(0));
    check_both(b"", b"", Some(0));
}

#[test]
fn empty_haystack_not_found() {
    check_both(b"a", b"", None);
}

#[test]
fn single_byte_needle() {
    check_both(b"q", b"q", Some(0));
    check_both(b"q", b"abcq", Some(3));
    let mut haystack = vec![b'x'; 100];
    haystack[77] = b'q';
    check_both(b"q", &haystack, Some(77));
    haystack[5] = b'q';
    check_both(b"q", &haystack, Some(5));
}

#[test]
fn match_on_window_boundary() {
    // The windowed scan advances 32 bytes a step: place the match so that
    // it starts exactly where the second window begins.
    let mut haystack = vec![b'.'; 128];
    haystack[32..37].copy_from_slice(b"gofer");
    check_both(b"gofer", &haystack, Some(32));
}

#[test]
fn match_straddling_two_windows() {
    // The occurrence starts inside the first window and ends inside the
    // second one.
    let mut haystack = vec![b'.'; 128];
    haystack[30..35].copy_from_slice(b"gofer");
    check_both(b"gofer", &haystack, Some(30));
}

#[test]
fn match_at_last_valid_offset() {
    // An occurrence at haystack.len() - needle.len(), reached only by the
    // tail fallback.
    let mut haystack = vec![b'.'; 100];
    haystack[95..100].copy_from_slice(b"tails");
    check_both(b"tails", &haystack, Some(95));
}

#[test]
fn match_at_last_valid_offset_short_haystack() {
    // A haystack shorter than one window plus the needle: the windowed
    // loop never runs and the tail fallback covers everything.
    let mut haystack = vec![b'.'; 20];
    haystack[16..20].copy_from_slice(b"ends");
    check_both(b"ends", &haystack, Some(16));
}

#[test]
fn leftmost_across_windows() {
    // Occurrences in the second and fourth windows: the earlier one wins.
    let mut haystack = vec![b'-'; 160];
    haystack[40..44].copy_from_slice(b"pick");
    haystack[110..114].copy_from_slice(b"pick");
    check_both(b"pick", &haystack, Some(40));
}

#[test]
fn false_candidates_are_rejected() {
    // Candidates whose first and last bytes agree with the needle but
    // whose middle differs must be skipped, and a later true occurrence
    // found.
    let mut haystack = vec![b'_'; 96];
    haystack[10..14].copy_from_slice(b"axxb");
    haystack[20..24].copy_from_slice(b"ayyb");
    haystack[70..74].copy_from_slice(b"acab");
    check_both(b"acab", &haystack, Some(70));
}

#[test]
fn repeated_byte_needle() {
    let haystack = b"aaabaaaab";
    check_both(b"aaaa", haystack, Some(4));
    check_both(b"aaa", haystack, Some(0));
}

#[test]
fn agrees_with_naive_scan_on_generated_inputs() {
    // Pseudo-random byte strings over a small alphabet, so that partial
    // overlaps and false candidates are frequent.
    let mut state: u64 = 0x2545_f491_4f6c_dd1d;
    let mut next = move || {
        state ^= state << 13;
        state ^= state >> 7;
        state ^= state << 17;
        state
    };
    for round in 0..200 {
        let hay_len = (next() % 150) as usize;
        let needle_len = 1 + (next() % 6) as usize;
        let haystack: Vec<u8> = (0..hay_len).map(|_| b'a' + (next() % 3) as u8).collect();
        let needle: Vec<u8> = (0..needle_len).map(|_| b'a' + (next() % 3) as u8).collect();
        let expected = naive_find(&needle, &haystack);
        assert_eq!(find_substr(&needle, &haystack), expected, "round {}", round);
        assert_eq!(find_substr_simd(&needle, &haystack), expected, "round {}", round);
    }
}

#[test]
fn harness_drivers_run() {
    test_baseline(b"newsletter", b"our newsletter is out", 3);
    test_simd_v1(b"newsletter", b"our newsletter is out", 3);
}
