//! Reducing the reply and forward prefixes of a mail subject to the first
//! one, as in `Re: Fwd: Re: hello` to `Re: hello`, and incrementing the depth
//! counter of that first prefix, as in `Re[1]: hello` to `Re[2]: hello`.
//!
//! The prefixes recognised are those of Unix tradition (`Re:`, `Fwd:`), of
//! Outlook in English (`RE:`, `FW:`) and of Outlook in German (`AW:`, `WG:`),
//! each optionally followed by a bracketed decimal counter before the colon.
//! A prefix word counts only at the start of the subject or after a character
//! that is no word character, so `LAW:` holds no prefix.
use vstd::prelude::*;

use crate::model::opt_view;
use crate::text::{
    concat2, concat3, decimal_digits, digit_char, push_decimal, string_from_range, string_push, to_chars,
};

verus! {

#[verifier::external_type_specification]
#[verifier::external_body]
pub struct ExRegex(regex::Regex);

#[verifier::external_type_specification]
#[verifier::external_body]
pub struct ExRegexError(regex::Error);

/// The regular expression of a reply or forward prefix: a word boundary,
/// the prefix word (group `prefix`), an optional bracketed counter (group
/// `depth`), a colon.
pub const SUBJECT_PREFIX_PATTERN: &'static str = "\\b(?P<prefix>Re|Fwd|RE|FW|WG|AW)(?:\\[(?P<depth>[0-9]+)\\])?:";

/// Whether `c` is a word character in the sense of `regex`'s `\b` (Unicode
/// `\w`: alphabetic characters, marks, decimal digits, connector punctuation
/// and join controls).
pub uninterp spec fn spec_is_word_char(c: char) -> bool;

// ----------------------------------------------------------------------
// What a prefix is
// ----------------------------------------------------------------------

/// The prefix words, in the order in which the pattern tries them.
pub open spec fn prefix_words() -> Seq<Seq<char>> {
    seq![
        seq!['R', 'e'],
        seq!['F', 'w', 'd'],
        seq!['R', 'E'],
        seq!['F', 'W'],
        seq!['W', 'G'],
        seq!['A', 'W'],
    ]
}

/// `w` stands in `s` at position `i`.
pub open spec fn word_at(s: Seq<char>, i: int, w: Seq<char>) -> bool {
    0 <= i && i + w.len() <= s.len() && s.subrange(i, i + w.len()) == w
}

/// The first prefix word, in pattern order, that stands at position `i`.
pub open spec fn prefix_word_at(s: Seq<char>, i: int) -> Option<Seq<char>> {
    let w = prefix_words();
    if word_at(s, i, w[0]) {
        Some(w[0])
    } else if word_at(s, i, w[1]) {
        Some(w[1])
    } else if word_at(s, i, w[2]) {
        Some(w[2])
    } else if word_at(s, i, w[3]) {
        Some(w[3])
    } else if word_at(s, i, w[4]) {
        Some(w[4])
    } else if word_at(s, i, w[5]) {
        Some(w[5])
    } else {
        None
    }
}

/// An ASCII decimal digit.
pub open spec fn is_digit(c: char) -> bool {
    c == '0' || c == '1' || c == '2' || c == '3' || c == '4' || c == '5' || c == '6' || c == '7'
        || c == '8' || c == '9'
}

/// How many ASCII digits follow one another from position `j` on.
pub open spec fn digit_run(s: Seq<char>, j: int) -> nat
    decreases s.len() - j,
{
    if 0 <= j < s.len() && is_digit(s[j]) {
        1 + digit_run(s, j + 1)
    } else {
        0
    }
}

/// A prefix found in a subject: its word, its counter digits if it has a
/// counter, and the position just past its colon.
pub ghost struct PrefixMatchModel {
    pub word: Seq<char>,
    pub depth: Option<Seq<char>>,
    pub end: int,
}

/// The prefix that starts at position `i`, if one does: at the start of the
/// subject or after a character that is no word character, a prefix word,
/// then either `[`, one or more digits, `]` and `:`, or `:` alone.
pub open spec fn match_at(s: Seq<char>, i: int) -> Option<PrefixMatchModel> {
    if 0 < i < s.len() && spec_is_word_char(s[i - 1]) {
        None
    } else {
        match_word_at(s, i)
    }
}

/// The prefix whose word starts at position `i`, whatever stands before it.
pub open spec fn match_word_at(s: Seq<char>, i: int) -> Option<PrefixMatchModel> {
    match prefix_word_at(s, i) {
        None => None,
        Some(w) => {
            let j = i + w.len();
            let n = digit_run(s, j + 1);
            if j < s.len() && s[j] == '[' && n > 0 && j + n + 2 < s.len() && s[j + 1 + n] == ']'
                && s[j + 2 + n] == ':' {
                Some(
                    PrefixMatchModel {
                        word: w,
                        depth: Some(s.subrange(j + 1, j + 1 + n)),
                        end: j + n + 3,
                    },
                )
            } else if j < s.len() && s[j] == ':' {
                Some(PrefixMatchModel { word: w, depth: None, end: j + 1 })
            } else {
                None
            }
        },
    }
}

/// A prefix starts at `i` and at no earlier position.
pub open spec fn is_leftmost_match(s: Seq<char>, i: int) -> bool {
    &&& 0 <= i <= s.len()
    &&& match_at(s, i) is Some
    &&& forall|j: int| 0 <= j < i ==> match_at(s, j) is None
}

/// A prefix starts somewhere in `s`.
pub open spec fn has_prefix_match(s: Seq<char>) -> bool {
    exists|i: int| 0 <= i <= s.len() && #[trigger] match_at(s, i) is Some
}

/// The leftmost prefix position, where there is one.
pub open spec fn leftmost(s: Seq<char>) -> int {
    choose|i: int| is_leftmost_match(s, i)
}

/// A prefix ends after it starts and within the subject.
pub proof fn lemma_match_bounds(s: Seq<char>, i: int)
    requires
        match_at(s, i) is Some,
    ensures
        i + 3 <= match_at(s, i)->Some_0.end <= s.len(),
        0 <= i,
{
    let w = prefix_word_at(s, i)->Some_0;
    assert(w.len() >= 2);
}

/// There is only one leftmost prefix position.
pub proof fn lemma_leftmost_unique(s: Seq<char>, i: int)
    requires
        is_leftmost_match(s, i),
    ensures
        leftmost(s) == i,
{
    let j = leftmost(s);
    assert(is_leftmost_match(s, j));
    if j < i {
        assert(match_at(s, j) is None);
    } else if i < j {
        assert(match_at(s, i) is None);
    }
}

// ----------------------------------------------------------------------
// Counters
// ----------------------------------------------------------------------

/// The value of a decimal digit.
pub open spec fn digit_value(c: char) -> nat {
    if c == '1' {
        1
    } else if c == '2' {
        2
    } else if c == '3' {
        3
    } else if c == '4' {
        4
    } else if c == '5' {
        5
    } else if c == '6' {
        6
    } else if c == '7' {
        7
    } else if c == '8' {
        8
    } else if c == '9' {
        9
    } else {
        0
    }
}

/// The value of a string of decimal digits.
pub open spec fn decimal_value(d: Seq<char>) -> nat
    decreases d.len(),
{
    if d.len() == 0 {
        0
    } else {
        decimal_value(d.drop_last()) * 10 + digit_value(d.last())
    }
}

/// A counter as a `u128`, or nothing where it does not fit.
pub open spec fn parse_counter(d: Seq<char>) -> Option<u128> {
    if decimal_value(d) <= u128::MAX {
        Some(decimal_value(d) as u128)
    } else {
        None
    }
}

/// The counter after `v`, wrapping round to 0 after the largest `u128`.
pub open spec fn wrapping_successor(v: u128) -> u128 {
    if v == u128::MAX {
        0
    } else {
        (v + 1) as u128
    }
}

// ----------------------------------------------------------------------
// The reduction
// ----------------------------------------------------------------------

/// `s` without its leading spaces.
pub open spec fn strip_leading_spaces(s: Seq<char>) -> Seq<char>
    decreases s.len(),
{
    if s.len() > 0 && s[0] == ' ' {
        strip_leading_spaces(s.drop_first())
    } else {
        s
    }
}

/// Stripping spaces never lengthens a subject.
pub proof fn lemma_strip_len(s: Seq<char>)
    ensures
        strip_leading_spaces(s).len() <= s.len(),
    decreases s.len(),
{
    if s.len() > 0 && s[0] == ' ' {
        lemma_strip_len(s.drop_first());
    }
}

/// The prefix to write once a prefix `whole` at the start of the subject has
/// been read: the prefix kept so far stays; where there is none yet, this
/// one is kept, its counter incremented where it has one that parses.
pub open spec fn next_prefix(
    kept: Option<Seq<char>>,
    whole: Seq<char>,
    m: PrefixMatchModel,
) -> Option<Seq<char>> {
    match kept {
        Some(k) => Some(k),
        None => match m.depth {
            Some(d) => match parse_counter(d) {
                Some(v) => Some(m.word + seq!['['] + decimal_digits(wrapping_successor(v) as nat) + seq![']', ':']),
                None => Some(whole),
            },
            None => Some(whole),
        },
    }
}

/// The reduction loop: strip leading spaces; take out the leftmost prefix,
/// remembering it if it stood at the start; repeat until no prefix is left.
/// The result is the remembered prefix and what is left of the subject.
pub open spec fn reduce_prefixes(s: Seq<char>, kept: Option<Seq<char>>) -> (Option<Seq<char>>, Seq<char>)
    decreases s.len(),
{
    let t = strip_leading_spaces(s);
    if exists|i: int| is_leftmost_match(t, i) {
        let i = leftmost(t);
        let m = match_at(t, i)->Some_0;
        proof {
            lemma_strip_len(s);
            lemma_match_bounds(t, i);
        }
        let kept2 = if i == 0 {
            next_prefix(kept, t.subrange(i, m.end), m)
        } else {
            kept
        };
        reduce_prefixes(t.take(i) + t.skip(m.end), kept2)
    } else {
        (kept, t)
    }
}

/// One round of the reduction, where a prefix is left.
pub proof fn lemma_reduce_step(s: Seq<char>, kept: Option<Seq<char>>, i: int)
    requires
        is_leftmost_match(strip_leading_spaces(s), i),
    ensures
        ({
            let t = strip_leading_spaces(s);
            let m = match_at(t, i)->Some_0;
            reduce_prefixes(s, kept) == reduce_prefixes(
                t.take(i) + t.skip(m.end),
                if i == 0 {
                    next_prefix(kept, t.subrange(i, m.end), m)
                } else {
                    kept
                },
            )
        }),
{
    lemma_leftmost_unique(strip_leading_spaces(s), i);
}

/// The last round of the reduction, where no prefix is left.
pub proof fn lemma_reduce_done(s: Seq<char>, kept: Option<Seq<char>>)
    requires
        !has_prefix_match(strip_leading_spaces(s)),
    ensures
        reduce_prefixes(s, kept) == (kept, strip_leading_spaces(s)),
{
    let t = strip_leading_spaces(s);
    if exists|i: int| is_leftmost_match(t, i) {
        let i = choose|i: int| is_leftmost_match(t, i);
        assert(match_at(t, i) is Some);
    }
}

/// The rewritten subject: the remembered prefix, a space and the rest, or
/// the rest alone where no prefix stood at the start.
pub open spec fn rewritten_subject(s: Seq<char>) -> Seq<char> {
    let (kept, rest) = reduce_prefixes(s, None);
    match kept {
        Some(p) => p + seq![' '] + rest,
        None => rest,
    }
}

// ----------------------------------------------------------------------
// Matching with `regex`
// ----------------------------------------------------------------------

/// A compiled regular expression together with the pattern it was compiled
/// from. It is only made by [`compile_regex`].
pub struct CompiledRegex {
    regex: regex::Regex,
    source: String,
}

/// Whether `regex` compiles the pattern (with its default settings).
pub uninterp spec fn regex_compiles(pattern: Seq<char>) -> bool;

/// `Regex::new`: compiles a regular expression. Whether it succeeds depends
/// on the pattern alone (named [`regex_compiles`]; `regex` refuses invalid
/// syntax and expressions over its size limits). On success the compiled
/// expression is paired with the pattern it was compiled from.
#[verifier::external_body]
fn compile_regex(pattern: &str) -> (r: Result<CompiledRegex, regex::Error>)
    ensures
        (r is Ok) == regex_compiles(pattern@),
        r matches Ok(c) ==> c.source@ == pattern@,
{
    regex::Regex::new(pattern).map(|regex| CompiledRegex { regex, source: pattern.to_owned() })
}

/// The compiled prefix pattern: a regular expression compiled from
/// [`SUBJECT_PREFIX_PATTERN`].
pub struct SubjectPattern {
    compiled: CompiledRegex,
}

impl SubjectPattern {
    /// The pattern that the regular expression was compiled from.
    pub closed spec fn source(&self) -> Seq<char> {
        self.compiled.source@
    }

    /// Every subject pattern is compiled from the prefix pattern.
    #[verifier::type_invariant]
    closed spec fn compiled_from_prefix_pattern(&self) -> bool {
        self.compiled.source@ == SUBJECT_PREFIX_PATTERN@
    }

    /// Compiles [`SUBJECT_PREFIX_PATTERN`]: it succeeds exactly when `regex`
    /// compiles that pattern, and the result is compiled from it.
    pub fn new() -> (r: Result<SubjectPattern, regex::Error>)
        ensures
            (r is Ok) == regex_compiles(SUBJECT_PREFIX_PATTERN@),
            r matches Ok(p) ==> p.source() == SUBJECT_PREFIX_PATTERN@,
    {
        match compile_regex(SUBJECT_PREFIX_PATTERN) {
            Ok(compiled) => Ok(SubjectPattern { compiled }),
            Err(e) => Err(e),
        }
    }
}

/// A prefix found in a subject, with the subject split round it.
pub struct PrefixCaptures {
    /// The subject before the prefix.
    pub before: String,
    /// The whole prefix.
    pub whole: String,
    /// The prefix word (group `prefix`).
    pub word: String,
    /// The counter digits (group `depth`), if the prefix has a counter.
    pub depth: Option<String>,
    /// The subject after the prefix.
    pub after: String,
}

/// `Regex::captures` on the prefix pattern: the leftmost-first match of the
/// pattern in `haystack`, if any. The contract states that match over
/// characters: the first position at which a prefix (as [`match_at`]
/// describes it) starts, with the subject split round it and the two groups.
#[verifier::external_body]
fn captures_prefix(pattern: &SubjectPattern, haystack: &str) -> (r: Option<PrefixCaptures>)
    requires
        pattern.source() == SUBJECT_PREFIX_PATTERN@,
    ensures
        match r {
            None => !has_prefix_match(haystack@),
            Some(c) => {
                &&& haystack@ == c.before@ + c.whole@ + c.after@
                &&& (c.before@.len() == 0 || !spec_is_word_char(c.before@.last()))
                &&& is_leftmost_match(haystack@, c.before@.len() as int)
                &&& match_at(haystack@, c.before@.len() as int) == Some(
                    PrefixMatchModel {
                        word: c.word@,
                        depth: opt_view(c.depth),
                        end: (c.before@.len() + c.whole@.len()) as int,
                    },
                )
            },
        },
{
    pattern.compiled.regex.captures(haystack).map(|c| {
        let m = c.get_match();
        PrefixCaptures {
            before: haystack[..m.start()].to_string(),
            whole: m.as_str().to_string(),
            word: c.name("prefix").unwrap().as_str().to_string(),
            depth: c.name("depth").map(|d| d.as_str().to_string()),
            after: haystack[m.end()..].to_string(),
        }
    })
}

// ----------------------------------------------------------------------
// Executable pieces
// ----------------------------------------------------------------------

/// The subject without its leading spaces.
fn strip_spaces(s: &str) -> (r: String)
    ensures
        r@ == strip_leading_spaces(s@),
{
    let chars = to_chars(s);
    let mut k: usize = 0;
    assert(chars@.skip(0) =~= chars@);
    while k < chars.len() && chars[k] == ' '
        invariant
            k <= chars.len(),
            strip_leading_spaces(chars@) == strip_leading_spaces(chars@.skip(k as int)),
        decreases chars.len() - k,
    {
        assert(chars@.skip(k as int).drop_first() =~= chars@.skip(k + 1));
        k += 1;
    }
    let r = string_from_range(&chars, k, chars.len());
    assert(chars@.subrange(k as int, chars.len() as int) =~= chars@.skip(k as int));
    r
}

/// Every prefix of a digit string is worth at most the whole.
proof fn lemma_decimal_prefix(d: Seq<char>, i: int)
    requires
        0 <= i <= d.len(),
    ensures
        decimal_value(d.take(i)) <= decimal_value(d),
    decreases d.len() - i,
{
    if i < d.len() {
        lemma_decimal_prefix(d, i + 1);
        assert(d.take(i + 1).drop_last() =~= d.take(i));
    } else {
        assert(d.take(i) =~= d);
    }
}

/// The value of a counter, or nothing where it does not fit in a `u128`.
fn parse_counter_exec(d: &str) -> (r: Option<u128>)
    requires
        forall|k: int| 0 <= k < d@.len() ==> is_digit(#[trigger] d@[k]),
    ensures
        r == parse_counter(d@),
{
    let chars = to_chars(d);
    let mut v: u128 = 0;
    let mut i: usize = 0;
    while i < chars.len()
        invariant
            i <= chars.len(),
            chars@ == d@,
            forall|k: int| 0 <= k < chars@.len() ==> is_digit(#[trigger] chars@[k]),
            v == decimal_value(chars@.take(i as int)),
        decreases chars.len() - i,
    {
        let c = chars[i];
        assert(chars@.take(i + 1).drop_last() =~= chars@.take(i as int));
        assert(is_digit(c));
        let dv: u128 = digit_value_exec(c);
        match v.checked_mul(10) {
            Some(t) => match t.checked_add(dv) {
                Some(n) => {
                    v = n;
                },
                None => {
                    proof {
                        lemma_decimal_prefix(chars@, i + 1);
                    }
                    return None;
                },
            },
            None => {
                proof {
                    lemma_decimal_prefix(chars@, i + 1);
                }
                return None;
            },
        }
        i += 1;
    }
    assert(chars@.take(chars.len() as int) =~= chars@);
    Some(v)
}

/// The value of a digit character.
fn digit_value_exec(c: char) -> (r: u128)
    ensures
        r == digit_value(c),
{
    if c == '1' {
        1
    } else if c == '2' {
        2
    } else if c == '3' {
        3
    } else if c == '4' {
        4
    } else if c == '5' {
        5
    } else if c == '6' {
        6
    } else if c == '7' {
        7
    } else if c == '8' {
        8
    } else if c == '9' {
        9
    } else {
        0
    }
}

/// The prefix to remember after reading the prefix `cap` at the start of the
/// subject.
fn updated_prefix(kept: Option<String>, cap: &PrefixCaptures) -> (r: Option<String>)
    requires
        match_at(cap.whole@ + cap.after@, 0) == Some(
            PrefixMatchModel { word: cap.word@, depth: opt_view(cap.depth), end: cap.whole@.len() as int },
        ),
    ensures
        opt_view(r) == next_prefix(
            opt_view(kept),
            cap.whole@,
            PrefixMatchModel { word: cap.word@, depth: opt_view(cap.depth), end: cap.whole@.len() as int },
        ),
{
    if kept.is_some() {
        // the first prefix stays
        return kept;
    }
    let ghost t = cap.whole@ + cap.after@;
    let ghost w = prefix_word_at(t, 0)->Some_0;
    let mut new_prefix = kept;
    // do we have a depth counter?
    match &cap.depth {
        Some(depth) => {
            let ghost j = w.len() as int;
            assert(depth@ =~= t.subrange(j + 1, j + 1 + digit_run(t, j + 1)));
            assert forall|k: int| 0 <= k < depth@.len() implies is_digit(#[trigger] depth@[k]) by {
                lemma_digit_run(t, j + 1, k);
            }
            match parse_counter_exec(depth.as_str()) {
                Some(old_depth) => {
                    // yes; increment it
                    let new_depth = if old_depth == u128::MAX {
                        0
                    } else {
                        old_depth + 1
                    };
                    let mut p = concat2(cap.word.as_str(), "[");
                    push_decimal(&mut p, new_depth);
                    p.append("]:");
                    proof {
                        reveal_strlit("[");
                        reveal_strlit("]:");
                    }
                    assert(p@ =~= cap.word@ + seq!['['] + decimal_digits(
                        wrapping_successor(old_depth) as nat,
                    ) + seq![']', ':']);
                    new_prefix = Some(p);
                },
                None => {},
            }
        },
        None => {},
    }
    if new_prefix.is_none() {
        // remember the current prefix for later
        new_prefix = Some(cap.whole.clone());
    }
    new_prefix
}

/// Rewrites a mail subject so that only its first reply or forward prefix
/// remains, followed by a space and the rest of the subject; a counter in
/// that first prefix is incremented (`Re[1]:` becomes `Re[2]:`). Prefixes
/// found later in the subject are removed, with their counters; leading
/// spaces are dropped.
pub fn rewrite_subject(pattern: &SubjectPattern, subject: &str) -> (r: String)
    ensures
        r@ == rewritten_subject(subject@),
{
    let mut new_prefix: Option<String> = None;
    let mut new_subject: String = subject.to_owned();
    loop
        invariant_except_break
            reduce_prefixes(subject@, None) == reduce_prefixes(new_subject@, opt_view(new_prefix)),
        ensures
            reduce_prefixes(subject@, None) == (opt_view(new_prefix), new_subject@),
        decreases new_subject@.len(),
    {
        let ghost s_before = new_subject@;
        let ghost kept_before = opt_view(new_prefix);
        // eat leading spaces, if any
        new_subject = strip_spaces(new_subject.as_str());
        let ghost t = new_subject@;
        proof {
            lemma_strip_len(s_before);
        }
        // do we have a Re/Fwd prefix?
        proof {
            use_type_invariant(pattern);
        }
        let cap = match captures_prefix(pattern, new_subject.as_str()) {
            None => {
                // nope; we're done here
                proof {
                    lemma_reduce_done(s_before, kept_before);
                }
                break ;
            },
            Some(c) => c,
        };
        let ghost i = cap.before@.len() as int;
        proof {
            lemma_match_bounds(t, i);
        }
        let ghost m = match_at(t, i)->Some_0;
        // is it at the beginning of the string?
        if cap.before.as_str().is_empty() {
            assert(t =~= cap.whole@ + cap.after@);
            assert(t.subrange(i, m.end) =~= cap.whole@);
            new_prefix = updated_prefix(new_prefix, &cap);
        }
        proof {
            lemma_reduce_step(s_before, kept_before, i);
        }
        // clear out the prefix
        new_subject = concat2(cap.before.as_str(), cap.after.as_str());
        assert(new_subject@ =~= t.take(i) + t.skip(m.end));
        // go around
    }
    // assemble the full new subject
    match new_prefix {
        Some(np) => {
            proof {
                reveal_strlit(" ");
            }
            concat3(np.as_str(), " ", new_subject.as_str())
        },
        None => new_subject,
    }
}

/// The characters counted by `digit_run` are digits.
proof fn lemma_digit_run(s: Seq<char>, j: int, k: int)
    requires
        0 <= k < digit_run(s, j),
    ensures
        is_digit(s[j + k]),
        0 <= j + k < s.len(),
    decreases k,
{
    if k > 0 {
        lemma_digit_run(s, j + 1, k - 1);
    }
}


/// What one notification of a subject change does, given whether the subject
/// was already altered: the flag afterwards, and the subject to write, if
/// any. Only the first notification writes the rewritten subject.
pub open spec fn subject_change_step(altered: bool, subject: Seq<char>) -> (bool, Option<Seq<char>>) {
    if altered {
        (true, None)
    } else {
        (true, Some(rewritten_subject(subject)))
    }
}

/// Claims the one rewrite that a message being composed gets: true, with the
/// flag set, if the subject was not altered yet; false otherwise.
pub fn claim_subject_change(already_altered: &mut bool) -> (r: bool)
    ensures
        r == !*old(already_altered),
        *final(already_altered),
        *final(already_altered) == subject_change_step(*old(already_altered), Seq::empty()).0,
{
    // guard against multiple calls for the same subject
    if *already_altered {
        return false;
    }
    *already_altered = true;
    true
}

/// What to do when the subject of a message being composed changes: the
/// first change is answered with the rewritten subject; later changes
/// (among them the one that writing the rewritten subject causes) are left
/// alone.
pub fn on_subject_changed(pattern: &SubjectPattern, already_altered: &mut bool, subject: &str) -> (r: Option<String>)
    ensures
        (*final(already_altered), opt_view(r)) == subject_change_step(*old(already_altered), subject@),
{
    if !claim_subject_change(already_altered) {
        return None;
    }
    Some(rewrite_subject(pattern, subject))
}

/// What a run of notifications writes, one entry for each, starting from the
/// flag `altered`.
pub open spec fn subject_change_outcomes(altered: bool, subjects: Seq<Seq<char>>) -> Seq<Option<Seq<char>>>
    decreases subjects.len(),
{
    if subjects.len() == 0 {
        Seq::empty()
    } else {
        let (next, out) = subject_change_step(altered, subjects[0]);
        seq![out] + subject_change_outcomes(next, subjects.drop_first())
    }
}

/// Once the subject was altered, no notification writes anything.
proof fn lemma_altered_writes_nothing(subjects: Seq<Seq<char>>)
    ensures
        subject_change_outcomes(true, subjects).len() == subjects.len(),
        forall|k: int| 0 <= k < subjects.len() ==> (#[trigger] subject_change_outcomes(true, subjects)[k]) is None,
    decreases subjects.len(),
{
    if subjects.len() > 0 {
        lemma_altered_writes_nothing(subjects.drop_first());
    }
}

/// Over any run of notifications of a message being composed (its flag
/// starting unset), the subject is written exactly once: by the first
/// notification, as the rewritten subject it reports; every later one,
/// including the one that writing causes, writes nothing.
pub proof fn lemma_subject_rewritten_once(subjects: Seq<Seq<char>>)
    requires
        subjects.len() >= 1,
    ensures
        ({
            let o = subject_change_outcomes(false, subjects);
            &&& o.len() == subjects.len()
            &&& o[0] == Some(rewritten_subject(subjects[0]))
            &&& forall|k: int| 1 <= k < o.len() ==> (#[trigger] o[k]) is None
        }),
{
    let rest = subjects.drop_first();
    lemma_altered_writes_nothing(rest);
    let o = subject_change_outcomes(false, subjects);
    assert forall|k: int| 1 <= k < o.len() implies (#[trigger] o[k]) is None by {
        assert(o[k] == subject_change_outcomes(true, rest)[k - 1]);
    }
}

// ----------------------------------------------------------------------
// Laws
// ----------------------------------------------------------------------

/// No leading space.
pub open spec fn starts_clean(s: Seq<char>) -> bool {
    s.len() == 0 || s[0] != ' '
}

proof fn lemma_strip_clean(s: Seq<char>)
    ensures
        starts_clean(strip_leading_spaces(s)),
    decreases s.len(),
{
    if s.len() > 0 && s[0] == ' ' {
        lemma_strip_clean(s.drop_first());
    }
}

proof fn lemma_strip_space(rest: Seq<char>)
    ensures
        strip_leading_spaces(seq![' '] + rest) == strip_leading_spaces(rest),
{
    assert((seq![' '] + rest).drop_first() =~= rest);
}

/// Where a prefix starts somewhere, a leftmost one starts somewhere.
proof fn lemma_leftmost_exists(t: Seq<char>, j: int)
    requires
        0 <= j <= t.len(),
        match_at(t, j) is Some,
    ensures
        exists|i: int| is_leftmost_match(t, i),
    decreases j,
{
    if exists|k: int| 0 <= k < j && match_at(t, k) is Some {
        let k = choose|k: int| 0 <= k < j && match_at(t, k) is Some;
        lemma_leftmost_exists(t, k);
    } else {
        assert(is_leftmost_match(t, j));
    }
}

/// A prefix remembered by the reduction is one whole prefix on its own.
pub open spec fn kept_ok(kept: Option<Seq<char>>) -> bool {
    match kept {
        None => true,
        Some(p) => match_at(p, 0) is Some && match_at(p, 0)->Some_0.end == p.len(),
    }
}

/// Each prefix word, followed by anything, is found as that word.
proof fn lemma_word_first(w: Seq<char>, x: Seq<char>)
    requires
        prefix_words().contains(w),
    ensures
        prefix_word_at(w + x, 0) == Some(w),
{
    let s = w + x;
    let ws = prefix_words();
    let k = choose|k: int| 0 <= k < ws.len() && ws[k] == w;
    assert(s[0] == w[0]);
    assert(s[1] == w[1]);
    assert(s.subrange(0, w.len() as int) =~= w);
    assert forall|k2: int| 0 <= k2 < k implies !word_at(s, 0, #[trigger] ws[k2]) by {
        if word_at(s, 0, ws[k2]) {
            assert(s.subrange(0, ws[k2].len() as int)[0] == s[0]);
            assert(s.subrange(0, ws[k2].len() as int)[1] == s[1]);
        }
    }
    assert(!word_at(s, 0, ws[0]) || k == 0);
}

/// The prefix word found at a position is one of the prefix words.
proof fn lemma_word_is_prefix_word(s: Seq<char>, i: int)
    requires
        prefix_word_at(s, i) is Some,
    ensures
        prefix_words().contains(prefix_word_at(s, i)->Some_0),
        prefix_word_at(s, i)->Some_0.len() >= 2,
        s.subrange(i, i + prefix_word_at(s, i)->Some_0.len()) == prefix_word_at(s, i)->Some_0,
{
    let ws = prefix_words();
    let w = prefix_word_at(s, i)->Some_0;
    if w == ws[0] {
        assert(ws[0] == w);
    } else if w == ws[1] {
        assert(ws[1] == w);
    } else if w == ws[2] {
        assert(ws[2] == w);
    } else if w == ws[3] {
        assert(ws[3] == w);
    } else if w == ws[4] {
        assert(ws[4] == w);
    } else {
        assert(ws[5] == w);
    }
}

/// The digits counted by `digit_run` do not depend on what lies after the
/// first non-digit.
proof fn lemma_digit_run_prefix(s: Seq<char>, x: Seq<char>, j: int)
    requires
        0 <= j,
        j + digit_run(s, j) < s.len(),
    ensures
        digit_run(s + x, j) == digit_run(s, j),
    decreases s.len() - j,
{
    if j < s.len() && is_digit(s[j]) {
        lemma_digit_run_prefix(s, x, j + 1);
    }
}

/// The digits counted by `digit_run` are the same in a slice that holds
/// them and the character after them.
proof fn lemma_digit_run_slice(s: Seq<char>, j: int, a: int, b: int)
    requires
        0 <= a <= j,
        j + digit_run(s, j) < b <= s.len(),
    ensures
        digit_run(s.subrange(a, b), j - a) == digit_run(s, j),
    decreases s.len() - j,
{
    if j < s.len() && is_digit(s[j]) {
        lemma_digit_run_slice(s, j + 1, a, b);
    }
}

/// A prefix looked at on its own is the same prefix.
proof fn lemma_match_local(t: Seq<char>, i: int)
    requires
        match_at(t, i) is Some,
    ensures
        ({
            let m = match_at(t, i)->Some_0;
            match_at(t.subrange(i, m.end), 0) == Some(
                PrefixMatchModel { word: m.word, depth: m.depth, end: m.end - i },
            )
        }),
{
    assert(match_at(t, i) == match_word_at(t, i));
    let m = match_at(t, i)->Some_0;
    lemma_match_bounds(t, i);
    lemma_word_is_prefix_word(t, i);
    let p = t.subrange(i, m.end);
    assert(match_at(p, 0) == match_word_at(p, 0));
    let w = m.word;
    assert(p =~= w + p.skip(w.len() as int));
    lemma_word_first(w, p.skip(w.len() as int));
    let j = i + w.len();
    let n = digit_run(t, j + 1);
    if m.depth is Some {
        lemma_digit_run_slice(t, j + 1, i, m.end);
        assert(p[w.len() as int] == t[j]);
        let wl = w.len() as int;
        assert(p[wl + 1 + n] == t[j + 1 + n]);
        assert(p[wl + 2 + n] == t[j + 2 + n]);
        assert(p.subrange(wl + 1, wl + 1 + n) =~= t.subrange(j + 1, j + 1 + n));
    } else {
        assert(p[w.len() as int] == t[j]);
        if t[j] == '[' {
            assert(false);
        }
    }
}

/// A whole prefix followed by anything is found as the same prefix.
proof fn lemma_match_extend(p: Seq<char>, x: Seq<char>)
    requires
        kept_ok(Some(p)),
    ensures
        match_at(p + x, 0) == match_at(p, 0),
{
    let m = match_at(p, 0)->Some_0;
    lemma_word_is_prefix_word(p, 0);
    let w = m.word;
    assert(p =~= w + p.skip(w.len() as int));
    lemma_word_first(w, p.skip(w.len() as int));
    assert(p + x =~= w + (p.skip(w.len() as int) + x));
    lemma_word_first(w, p.skip(w.len() as int) + x);
    let s = p + x;
    let j = w.len() as int;
    let n = digit_run(p, j + 1);
    if m.depth is Some {
        lemma_digit_run_prefix(p, x, j + 1);
        assert(s.subrange(j + 1, j + 1 + n) =~= p.subrange(j + 1, j + 1 + n));
    } else {
        assert(s[j] == p[j]);
        if p[j] == '[' {
            assert(false);
        }
    }
}

/// The digits of a number are digits, and there is at least one.
proof fn lemma_decimal_digits(n: nat)
    ensures
        decimal_digits(n).len() >= 1,
        forall|k: int| 0 <= k < decimal_digits(n).len() ==> is_digit(#[trigger] decimal_digits(n)[k]),
        decimal_value(decimal_digits(n)) == n,
    decreases n,
{
    lemma_digit_char_value(n % 10);
    if n >= 10 {
        lemma_decimal_digits(n / 10);
        let d = decimal_digits(n);
        assert(d.drop_last() =~= decimal_digits(n / 10));
        assert(d.last() == digit_char(n % 10));
        assert(n == (n / 10) * 10 + n % 10) by (nonlinear_arith);
        assert(decimal_value(d) == decimal_value(d.drop_last()) * 10 + digit_value(d.last()));
    } else {
        let d = decimal_digits(n);
        assert(d.drop_last() =~= Seq::<char>::empty());
        assert(decimal_value(d.drop_last()) == 0);
        assert(decimal_value(d) == decimal_value(d.drop_last()) * 10 + digit_value(d.last()));
    }
}

/// The digit character of a value below ten is a digit worth that value.
proof fn lemma_digit_char_value(d: nat)
    requires
        d < 10,
    ensures
        is_digit(digit_char(d)),
        digit_value(digit_char(d)) == d,
{
}

/// A run of digits followed by something else is counted whole.
proof fn lemma_digit_run_of(d: Seq<char>, x: Seq<char>, k: int)
    requires
        0 <= k <= d.len(),
        forall|i: int| 0 <= i < d.len() ==> is_digit(#[trigger] d[i]),
        x.len() > 0,
        !is_digit(x[0]),
    ensures
        digit_run(d + x, k) == d.len() - k,
    decreases d.len() - k,
{
    if k < d.len() {
        lemma_digit_run_of(d, x, k + 1);
    } else {
        assert((d + x)[k] == x[0]);
    }
}

/// A prefix written with a counter is one whole prefix.
proof fn lemma_counted_prefix_ok(w: Seq<char>, n: nat)
    requires
        prefix_words().contains(w),
    ensures
        kept_ok(Some(w + seq!['['] + decimal_digits(n) + seq![']', ':'])),
        match_at(w + seq!['['] + decimal_digits(n) + seq![']', ':'], 0) == Some(
            PrefixMatchModel {
                word: w,
                depth: Some(decimal_digits(n)),
                end: (w.len() + decimal_digits(n).len() + 3) as int,
            },
        ),
{
    let d = decimal_digits(n);
    lemma_decimal_digits(n);
    let p = w + seq!['['] + d + seq![']', ':'];
    assert(p =~= w + (seq!['['] + d + seq![']', ':']));
    lemma_word_first(w, seq!['['] + d + seq![']', ':']);
    let j = w.len() as int;
    assert(p[j] == '[');
    let tail = seq![']', ':'];
    lemma_digit_run_of(d, tail, 0);
    assert(p.skip(j + 1) =~= d + tail);
    lemma_digit_run_skip(p, j + 1, 0);
    assert(digit_run(p, j + 1) == d.len());
    assert(p[j + 1 + d.len()] == ']');
    assert(p[j + 2 + d.len()] == ':');
    assert(p.subrange(j + 1, j + 1 + d.len()) =~= d);
}

/// `digit_run` from a position is `digit_run` of what follows it.
proof fn lemma_digit_run_skip(s: Seq<char>, j: int, k: int)
    requires
        0 <= j <= s.len(),
        0 <= k,
    ensures
        digit_run(s.skip(j), k) == digit_run(s, j + k),
    decreases s.len() - j - k,
{
    if j + k < s.len() && is_digit(s[j + k]) {
        lemma_digit_run_skip(s, j, k + 1);
    }
}

/// Remembering a prefix keeps what is remembered a whole prefix.
proof fn lemma_next_prefix_ok(kept: Option<Seq<char>>, t: Seq<char>)
    requires
        kept_ok(kept),
        match_at(t, 0) is Some,
    ensures
        kept_ok(
            next_prefix(kept, t.subrange(0, match_at(t, 0)->Some_0.end), match_at(t, 0)->Some_0),
        ),
{
    let m = match_at(t, 0)->Some_0;
    lemma_match_local(t, 0);
    lemma_word_is_prefix_word(t, 0);
    match m.depth {
        Some(d) => match parse_counter(d) {
            Some(v) => {
                lemma_counted_prefix_ok(m.word, wrapping_successor(v) as nat);
            },
            None => {},
        },
        None => {},
    }
}

/// What the reduction leaves: no prefix anywhere and no leading space; and
/// the prefix it remembers is a whole prefix.
pub proof fn lemma_reduce_clean(s: Seq<char>, kept: Option<Seq<char>>)
    requires
        kept_ok(kept),
    ensures
        !has_prefix_match(reduce_prefixes(s, kept).1),
        starts_clean(reduce_prefixes(s, kept).1),
        kept_ok(reduce_prefixes(s, kept).0),
    decreases s.len(),
{
    let t = strip_leading_spaces(s);
    lemma_strip_clean(s);
    lemma_strip_len(s);
    if exists|i: int| is_leftmost_match(t, i) {
        let i = leftmost(t);
        let m = match_at(t, i)->Some_0;
        lemma_match_bounds(t, i);
        let kept2 = if i == 0 {
            next_prefix(kept, t.subrange(i, m.end), m)
        } else {
            kept
        };
        if i == 0 {
            lemma_next_prefix_ok(kept, t);
        }
        lemma_reduce_clean(t.take(i) + t.skip(m.end), kept2);
    } else {
        if has_prefix_match(t) {
            let j = choose|j: int| 0 <= j <= t.len() && #[trigger] match_at(t, j) is Some;
            lemma_leftmost_exists(t, j);
        }
    }
}

/// A subject without leading spaces and without any prefix is left alone.
pub proof fn lemma_rewrite_plain(s: Seq<char>)
    requires
        starts_clean(s),
        !has_prefix_match(s),
    ensures
        rewritten_subject(s) == s,
{
    lemma_reduce_done(s, None);
}

/// The rewritten subject holds exactly one prefix at its start, or none at
/// all: whatever follows the leading prefix and its space holds no prefix.
pub proof fn lemma_rewrite_single_prefix(s: Seq<char>)
    ensures
        ({
            let (kept, rest) = reduce_prefixes(s, None);
            &&& !has_prefix_match(rest)
            &&& starts_clean(rest)
            &&& match kept {
                Some(p) => rewritten_subject(s) == p + seq![' '] + rest && match_at(p, 0) is Some
                    && match_at(p, 0)->Some_0.end == p.len(),
                None => rewritten_subject(s) == rest,
            }
        }),
{
    lemma_reduce_clean(s, None);
}

/// A remembered prefix stays.
proof fn lemma_kept_prefix_stays(s: Seq<char>, p: Seq<char>)
    ensures
        reduce_prefixes(s, Some(p)).0 == Some(p),
    decreases s.len(),
{
    let t = strip_leading_spaces(s);
    lemma_strip_len(s);
    if exists|i: int| is_leftmost_match(t, i) {
        let i = leftmost(t);
        lemma_match_bounds(t, i);
        let m = match_at(t, i)->Some_0;
        lemma_kept_prefix_stays(t.take(i) + t.skip(m.end), p);
    }
}

/// The first prefix is the one that stays: a subject that starts (after its
/// leading spaces) with a prefix is rewritten to that prefix (its counter
/// incremented, where it has one that parses), a space, and the rest; every
/// later prefix is dropped, whether it has a counter or not.
pub proof fn lemma_rewrite_keeps_first_prefix(s: Seq<char>)
    requires
        match_at(strip_leading_spaces(s), 0) is Some,
    ensures
        ({
            let t = strip_leading_spaces(s);
            let m = match_at(t, 0)->Some_0;
            let first = next_prefix(None, t.take(m.end), m);
            &&& reduce_prefixes(s, None).0 == first
            &&& rewritten_subject(s) == first->Some_0 + seq![' '] + reduce_prefixes(s, None).1
        }),
{
    let t = strip_leading_spaces(s);
    lemma_strip_len(s);
    assert(is_leftmost_match(t, 0));
    lemma_leftmost_unique(t, 0);
    lemma_match_bounds(t, 0);
    let m = match_at(t, 0)->Some_0;
    assert(t.subrange(0, m.end) =~= t.take(m.end));
    lemma_kept_prefix_stays(t.take(0) + t.skip(m.end), next_prefix(None, t.take(m.end), m)->Some_0);
}

/// The counter of the leading prefix of the rewritten subject, if it has
/// one that fits in a `u128`.
pub open spec fn leading_counter(s: Seq<char>) -> Option<u128> {
    match reduce_prefixes(s, None).0 {
        Some(p) => match match_at(p, 0) {
            Some(m) => match m.depth {
                Some(d) => parse_counter(d),
                None => None,
            },
            None => None,
        },
        None => None,
    }
}

/// Rewriting a rewritten subject once more: the leading prefix is read
/// again (its counter, if any, incremented) and the rest stays.
proof fn lemma_rewrite_again(s: Seq<char>)
    ensures
        ({
            let (kept, rest) = reduce_prefixes(s, None);
            match kept {
                None => rewritten_subject(rewritten_subject(s)) == rewritten_subject(s),
                Some(p) => rewritten_subject(rewritten_subject(s)) == next_prefix(
                    None,
                    p,
                    match_at(p, 0)->Some_0,
                )->Some_0 + seq![' '] + rest,
            }
        }),
{
    lemma_reduce_clean(s, None);
    let (kept, rest) = reduce_prefixes(s, None);
    match kept {
        None => {
            lemma_rewrite_plain(rest);
        },
        Some(p) => {
            let u = p + seq![' '] + rest;
            let m = match_at(p, 0)->Some_0;
            assert(u =~= p + (seq![' '] + rest));
            lemma_match_extend(p, seq![' '] + rest);
            lemma_word_is_prefix_word(p, 0);
            assert(u[0] == p[0]);
            assert(strip_leading_spaces(u) == u);
            assert(is_leftmost_match(u, 0));
            lemma_reduce_step(u, None, 0);
            assert(u.subrange(0, m.end) =~= p);
            assert(u.take(0) + u.skip(m.end) =~= seq![' '] + rest);
            lemma_strip_space(rest);
            assert(strip_leading_spaces(rest) == rest);
            lemma_reduce_done(seq![' '] + rest, next_prefix(None, p, m));
        },
    }
}

/// Rewriting is stable: a rewritten subject whose leading prefix has no
/// counter (or one too large to read) is rewritten to itself.
pub proof fn lemma_rewrite_stable(s: Seq<char>)
    requires
        leading_counter(s) is None,
    ensures
        rewritten_subject(rewritten_subject(s)) == rewritten_subject(s),
{
    lemma_rewrite_again(s);
    lemma_reduce_clean(s, None);
}

/// Each rewrite increments the counter of the leading prefix by one
/// (wrapping round after the largest `u128`), and leaves the rest alone.
pub proof fn lemma_rewrite_increments(s: Seq<char>)
    requires
        leading_counter(s) is Some,
    ensures
        ({
            let (kept, rest) = reduce_prefixes(s, None);
            let m = match_at(kept->Some_0, 0)->Some_0;
            let v = leading_counter(s)->Some_0;
            rewritten_subject(rewritten_subject(s)) == m.word + seq!['['] + decimal_digits(
                wrapping_successor(v) as nat,
            ) + seq![']', ':'] + seq![' '] + rest
        }),
{
    lemma_rewrite_again(s);
    lemma_reduce_clean(s, None);
}

} // verus!
