use grr::subject::{claim_subject_change, on_subject_changed, rewrite_subject, SubjectPattern};

fn rewrite(s: &str) -> String {
    let pattern = SubjectPattern::new().unwrap();
    rewrite_subject(&pattern, s)
}

#[test]
fn reduces_repeated_replies() {
    assert_eq!(rewrite("Re: Re: Re: hello"), "Re: hello");
}

#[test]
fn keeps_first_prefix_kind() {
    assert_eq!(rewrite("Fwd: Re: hello"), "Fwd: hello");
    assert_eq!(rewrite("RE: AW: WG: FW: hello"), "RE: hello");
}

#[test]
fn increments_counter() {
    assert_eq!(rewrite("Re[1]: hello"), "Re[2]: hello");
    assert_eq!(rewrite("AW[41]: hallo"), "AW[42]: hallo");
}

#[test]
fn first_prefix_wins_over_later_counter() {
    assert_eq!(rewrite("Re: Fwd[2]: x"), "Re: x");
    assert_eq!(rewrite("Re: Re[3]: hello"), "Re: hello");
    assert_eq!(rewrite("Re[3]: Fwd: hello"), "Re[4]: hello");
    assert_eq!(rewrite("Re[3]: Fwd[9]: hello"), "Re[4]: hello");
}

#[test]
fn prefix_words_inside_words_are_no_prefixes() {
    assert_eq!(rewrite("LAW: new rules"), "LAW: new rules");
    assert_eq!(rewrite("DRAW: Re: x"), "DRAW:  x");
    assert_eq!(rewrite("Fwd_Re: x"), "Fwd_Re: x");
    assert_eq!(rewrite("4Re: x"), "4Re: x");
    assert_eq!(rewrite("(Re: x)"), "( x)");
    assert_eq!(rewrite("Re:Re: x"), "Re: x");
    assert_eq!(rewrite("\u{e9}Re: x"), "\u{e9}Re: x");
}

#[test]
fn counter_wraps_at_maximum() {
    assert_eq!(
        rewrite("Re[340282366920938463463374607431768211455]: x"),
        "Re[0]: x"
    );
}

#[test]
fn counter_too_large_is_kept_as_written() {
    let big = "Re[3402823669209384634633746074317682114560]: x";
    assert_eq!(rewrite(big), big);
}

#[test]
fn leading_spaces_are_dropped() {
    assert_eq!(rewrite("   Re:   hello"), "Re: hello");
    assert_eq!(rewrite("   hello"), "hello");
}

#[test]
fn prefix_in_the_middle_is_removed() {
    assert_eq!(rewrite("hello Re: world"), "hello  world");
}

#[test]
fn no_prefix_is_left_alone() {
    assert_eq!(rewrite("hello world"), "hello world");
    assert_eq!(rewrite("Re hello"), "Re hello");
    assert_eq!(rewrite("re: hello"), "re: hello");
    assert_eq!(rewrite(""), "");
}

#[test]
fn bare_prefix_gets_a_space() {
    assert_eq!(rewrite("Re:"), "Re: ");
}

#[test]
fn malformed_counter_is_no_prefix() {
    assert_eq!(rewrite("Re[]: x"), "Re[]: x");
    assert_eq!(rewrite("Re[1: x"), "Re[1: x");
}

#[test]
fn non_ascii_subject() {
    assert_eq!(rewrite("Re: AW: Grüße"), "Re: Grüße");
    assert_eq!(rewrite("Grüße Re: dich"), "Grüße  dich");
}

#[test]
fn rewriting_twice_is_stable_without_counter() {
    let once = rewrite("Re: Fwd: Re: hello");
    assert_eq!(rewrite(&once), once);
    let plain = rewrite("  hello Re: x");
    assert_eq!(rewrite(&plain), plain);
}

#[test]
fn rewriting_twice_increments_twice() {
    let once = rewrite("Re[7]: Re: hello");
    assert_eq!(once, "Re[8]: hello");
    assert_eq!(rewrite(&once), "Re[9]: hello");
}

#[test]
fn rewritten_subject_has_one_prefix() {
    let r = rewrite("Re: x Fwd: y WG: z");
    assert_eq!(r, "Re: x  y  z");
}

#[test]
fn pattern_compiles() {
    assert!(SubjectPattern::new().is_ok());
}

#[test]
fn claim_only_once() {
    let mut altered = false;
    assert!(claim_subject_change(&mut altered));
    assert!(altered);
    assert!(!claim_subject_change(&mut altered));
    assert!(!claim_subject_change(&mut altered));
    assert!(altered);
}

#[test]
fn notifications_rewrite_once() {
    let pattern = SubjectPattern::new().unwrap();
    let mut altered = false;
    let subjects = ["Re: Fwd[2]: x", "Re: x", "Fwd: Re: y"];
    let outcomes: Vec<Option<String>> =
        subjects.iter().map(|s| on_subject_changed(&pattern, &mut altered, s)).collect();
    assert_eq!(outcomes, vec![Some("Re: x".to_owned()), None, None]);
}

#[test]
fn subject_change_guard() {
    let pattern = SubjectPattern::new().unwrap();
    let mut altered = false;
    assert_eq!(
        on_subject_changed(&pattern, &mut altered, "Re: Re: x"),
        Some("Re: x".to_owned())
    );
    assert!(altered);
    assert_eq!(on_subject_changed(&pattern, &mut altered, "Re: Re: y"), None);
    assert!(altered);
}
