//! The name generator: seed normalization, index derivation, and word
//! selection over the embedded word lists.

use std::time::{SystemTime, UNIX_EPOCH};
use vstd::prelude::*;
use vstd::string::StrSliceExecFns;
use vstd::string::StringExecFns;

pub mod data;

verus! {

/// A character that counts as a hexadecimal digit when filtering a raw seed.
pub open spec fn is_hex_digit(c: char) -> bool {
    ('0' <= c && c <= '9') || ('a' <= c && c <= 'f') || ('A' <= c && c <= 'F')
}

/// The numeric value of a hexadecimal digit; 0 for any other character.
pub open spec fn hex_digit_value(c: char) -> nat {
    if '0' <= c && c <= '9' {
        (c as u32 - '0' as u32) as nat
    } else if 'a' <= c && c <= 'f' {
        (c as u32 - 'a' as u32 + 10) as nat
    } else if 'A' <= c && c <= 'F' {
        (c as u32 - 'A' as u32 + 10) as nat
    } else {
        0
    }
}

fn is_hex_digit_char(c: char) -> (r: bool)
    ensures
        r == is_hex_digit(c),
{
    ('0' <= c && c <= '9') || ('a' <= c && c <= 'f') || ('A' <= c && c <= 'F')
}

fn hex_digit_char_value(c: char) -> (v: u32)
    ensures
        v == hex_digit_value(c),
        v < 16,
{
    if '0' <= c && c <= '9' {
        c as u32 - '0' as u32
    } else if 'a' <= c && c <= 'f' {
        c as u32 - 'a' as u32 + 10
    } else if 'A' <= c && c <= 'F' {
        c as u32 - 'A' as u32 + 10
    } else {
        0
    }
}

/// A lowercase ASCII letter, the only characters a generated word may hold.
pub open spec fn is_lower_alpha(c: char) -> bool {
    'a' <= c && c <= 'z'
}

/// ASCII lowercasing: uppercase letters are shifted down, everything else is
/// left as it is.
pub open spec fn lower_char(c: char) -> char {
    if 'A' <= c && c <= 'Z' {
        ((c as u32 + 32) as u8) as char
    } else {
        c
    }
}

/// ASCII uppercasing: lowercase letters are shifted up, everything else is
/// left as it is.
pub open spec fn upper_char(c: char) -> char {
    if 'a' <= c && c <= 'z' {
        ((c as u32 - 32) as u8) as char
    } else {
        c
    }
}

fn lower_char_exec(c: char) -> (r: char)
    ensures
        r == lower_char(c),
{
    if 'A' <= c && c <= 'Z' {
        ((c as u32 + 32) as u8) as char
    } else {
        c
    }
}

fn upper_char_exec(c: char) -> (r: char)
    ensures
        r == upper_char(c),
{
    if 'a' <= c && c <= 'z' {
        ((c as u32 - 32) as u8) as char
    } else {
        c
    }
}

/// The value of a two-digit hexadecimal pair, or 0 if either character is not
/// a hexadecimal digit (mirroring a failed parse defaulting to zero).
pub open spec fn spec_hex_pair_value(hi: char, lo: char) -> nat {
    if is_hex_digit(hi) && is_hex_digit(lo) {
        16 * hex_digit_value(hi) + hex_digit_value(lo)
    } else {
        0
    }
}

/// Interpret two characters as a two-digit hexadecimal number (0..=255).
/// A pair with any non-hexadecimal character yields 0 rather than an error.
pub fn hex_pair_to_value(hi: char, lo: char) -> (v: usize)
    ensures
        v == spec_hex_pair_value(hi, lo),
        v < 256,
{
    if is_hex_digit_char(hi) && is_hex_digit_char(lo) {
        (16 * hex_digit_char_value(hi) + hex_digit_char_value(lo)) as usize
    } else {
        0
    }
}

/// A lowercase hexadecimal digit, the alphabet of the timestamp fallback.
pub open spec fn is_lower_hex(c: char) -> bool {
    ('0' <= c && c <= '9') || ('a' <= c && c <= 'f')
}

/// The lowercase hexadecimal digit for a value below 16 ('f' otherwise).
pub open spec fn lower_hex_digit(v: nat) -> char {
    if v == 0 {
        '0'
    } else if v == 1 {
        '1'
    } else if v == 2 {
        '2'
    } else if v == 3 {
        '3'
    } else if v == 4 {
        '4'
    } else if v == 5 {
        '5'
    } else if v == 6 {
        '6'
    } else if v == 7 {
        '7'
    } else if v == 8 {
        '8'
    } else if v == 9 {
        '9'
    } else if v == 10 {
        'a'
    } else if v == 11 {
        'b'
    } else if v == 12 {
        'c'
    } else if v == 13 {
        'd'
    } else if v == 14 {
        'e'
    } else {
        'f'
    }
}

/// The lowercase hexadecimal rendering of a number, most significant digit
/// first, with no leading zeros (0 renders as "0").
pub open spec fn spec_to_hex(n: nat) -> Seq<char>
    decreases n,
{
    if n < 16 {
        seq![lower_hex_digit(n)]
    } else {
        spec_to_hex(n / 16).push(lower_hex_digit(n % 16))
    }
}

/// The subsequence of hexadecimal digit characters, original order kept.
pub open spec fn filter_hex(s: Seq<char>) -> Seq<char>
    decreases s.len(),
{
    if s.len() == 0 {
        Seq::empty()
    } else {
        filter_hex(s.drop_last()) + if is_hex_digit(s.last()) {
            seq![s.last()]
        } else {
            Seq::empty()
        }
    }
}

/// Right-pad with '0' up to length 4; longer input is left unchanged.
pub open spec fn pad_to_min(s: Seq<char>) -> Seq<char> {
    if s.len() >= 4 {
        s
    } else {
        s + Seq::new((4 - s.len()) as nat, |i: int| '0')
    }
}

/// A well-formed normalized seed: at least 4 characters, all hexadecimal.
pub open spec fn normalized_wf(s: Seq<char>) -> bool {
    s.len() >= 4 && (forall|i: int| 0 <= i < s.len() ==> is_hex_digit(#[trigger] s[i]))
}

/// What normalization produces whenever the raw seed has hexadecimal content.
pub open spec fn spec_normalize(raw: Seq<char>) -> Seq<char> {
    pad_to_min(filter_hex(raw))
}

/// Every character that the hexadecimal filter keeps is a hexadecimal digit.
pub proof fn lemma_filter_hex_all_hex(s: Seq<char>)
    ensures
        forall|i: int| 0 <= i < filter_hex(s).len() ==> is_hex_digit(#[trigger] filter_hex(s)[i]),
    decreases s.len(),
{
    if s.len() > 0 {
        lemma_filter_hex_all_hex(s.drop_last());
        assert forall|i: int| 0 <= i < filter_hex(s).len() implies is_hex_digit(
            #[trigger] filter_hex(s)[i],
        ) by {
            let head = filter_hex(s.drop_last());
            if i < head.len() {
                assert(filter_hex(s)[i] == head[i]);
            } else {
                assert(is_hex_digit(s.last()));
                assert(filter_hex(s)[i] == s.last());
            }
        }
    }
}

/// Every digit of a hexadecimal rendering is a lowercase hexadecimal digit,
/// and the rendering is never empty.
pub proof fn lemma_to_hex_wf(n: nat)
    ensures
        spec_to_hex(n).len() >= 1,
        forall|i: int| 0 <= i < spec_to_hex(n).len() ==> is_lower_hex(#[trigger] spec_to_hex(n)[i]),
    decreases n,
{
    if n >= 16 {
        lemma_to_hex_wf(n / 16);
    }
}

/// Relies on `String::push`: it appends exactly the given character.
#[verifier::external_body]
fn push_char(s: &mut String, c: char)
    ensures
        final(s)@ == old(s)@.push(c),
{
    s.push(c);
}

/// Relies on `SystemTime::now` and `Duration::as_secs`: the wall clock read
/// as whole seconds since the Unix epoch, or 0 if the clock reads earlier
/// than the epoch. Nothing is assumed of the value.
#[verifier::external_body]
fn current_unix_seconds() -> u64 {
    SystemTime::now().duration_since(UNIX_EPOCH).unwrap_or_default().as_secs()
}

/// Collect characters into a runtime string, in order.
pub(crate) fn chars_to_string(v: &Vec<char>) -> (r: String)
    ensures
        r@ == v@,
{
    let mut r = String::new();
    let mut i: usize = 0;
    while i < v.len()
        invariant
            i <= v@.len(),
            r@ == v@.take(i as int),
        decreases v@.len() - i,
    {
        push_char(&mut r, v[i]);
        proof {
            assert(v@.take(i as int).push(v@[i as int]) =~= v@.take(i + 1 as int));
        }
        i += 1;
    }
    proof {
        assert(v@.take(v@.len() as int) =~= v@);
    }
    r
}

fn hex_digit_char_of(v: u64) -> (c: char)
    requires
        v < 16,
    ensures
        c == lower_hex_digit(v as nat),
{
    if v == 0 {
        '0'
    } else if v == 1 {
        '1'
    } else if v == 2 {
        '2'
    } else if v == 3 {
        '3'
    } else if v == 4 {
        '4'
    } else if v == 5 {
        '5'
    } else if v == 6 {
        '6'
    } else if v == 7 {
        '7'
    } else if v == 8 {
        '8'
    } else if v == 9 {
        '9'
    } else if v == 10 {
        'a'
    } else if v == 11 {
        'b'
    } else if v == 12 {
        'c'
    } else if v == 13 {
        'd'
    } else if v == 14 {
        'e'
    } else {
        'f'
    }
}

/// Render a number as lowercase hexadecimal digits, most significant first.
fn u64_to_hex_digits(n: u64) -> (r: Vec<char>)
    ensures
        r@ == spec_to_hex(n as nat),
{
    let mut digits: Vec<char> = Vec::new();
    let mut m: u64 = n;
    while m >= 16
        invariant
            spec_to_hex(n as nat) == spec_to_hex(m as nat) + digits@,
        decreases m,
    {
        let ghost pre = digits@;
        let d = hex_digit_char_of(m % 16);
        digits.insert(0, d);
        proof {
            assert(digits@ =~= seq![d] + pre);
            assert((m as nat) % 16 == (m % 16) as nat);
            assert((m as nat) / 16 == (m / 16) as nat);
            assert(spec_to_hex(m as nat) + pre =~= spec_to_hex((m / 16) as nat) + digits@);
        }
        m = m / 16;
    }
    let ghost pre = digits@;
    digits.insert(0, hex_digit_char_of(m));
    proof {
        assert(digits@ =~= seq![lower_hex_digit(m as nat)] + pre);
        assert(spec_to_hex(m as nat) + pre =~= digits@);
    }
    digits
}

/// The fallback seed for raw input without any hexadecimal digit: the wall
/// clock in seconds since the Unix epoch, rendered as lowercase hexadecimal.
fn timestamp_digits() -> (r: Vec<char>)
    ensures
        r@.len() >= 1,
        forall|i: int| 0 <= i < r@.len() ==> is_lower_hex(#[trigger] r@[i]),
        exists|n: u64| r@ == spec_to_hex(n as nat),
{
    let secs = current_unix_seconds();
    let r = u64_to_hex_digits(secs);
    proof {
        lemma_to_hex_wf(secs as nat);
    }
    r
}

/// The timestamp fallback as a string: at least one character, every one a
/// lowercase hexadecimal digit.
pub fn fallback_timestamp_hex() -> (r: String)
    ensures
        r@.len() >= 1,
        forall|i: int| 0 <= i < r@.len() ==> is_lower_hex(#[trigger] r@[i]),
        exists|n: u64| r@ == spec_to_hex(n as nat),
{
    let digits = timestamp_digits();
    chars_to_string(&digits)
}

/// Normalize a raw seed: keep only hexadecimal digits, fall back to the
/// current timestamp when none remain, and right-pad with '0' to at least 4
/// characters. The result is always a well-formed normalized seed, and it is
/// a pure function of the input whenever the input has hexadecimal content.
pub fn normalize_sha(raw: &str) -> (r: String)
    ensures
        normalized_wf(r@),
        filter_hex(raw@).len() > 0 ==> r@ == spec_normalize(raw@),
        filter_hex(raw@).len() == 0 ==> forall|i: int|
            0 <= i < r@.len() ==> is_lower_hex(#[trigger] r@[i]),
{
    let n = raw.unicode_len();
    let mut sanitized: Vec<char> = Vec::new();
    let mut i: usize = 0;
    while i < n
        invariant
            n == raw@.len(),
            i <= n,
            sanitized@ == filter_hex(raw@.take(i as int)),
        decreases n - i,
    {
        let c = raw.get_char(i);
        let ghost pre = sanitized@;
        if is_hex_digit_char(c) {
            sanitized.push(c);
        }
        proof {
            let t = raw@.take(i + 1 as int);
            assert(t.drop_last() =~= raw@.take(i as int));
            assert(t.last() == c);
            if is_hex_digit(c) {
                assert(filter_hex(t) =~= pre.push(c));
            } else {
                assert(filter_hex(t) =~= pre);
            }
        }
        i += 1;
    }
    proof {
        assert(raw@.take(n as int) =~= raw@);
        lemma_filter_hex_all_hex(raw@);
    }
    let ghost from_filter = sanitized@.len() > 0;
    if sanitized.len() == 0 {
        sanitized = timestamp_digits();
    }
    let ghost base = sanitized@;
    while sanitized.len() < 4
        invariant
            base.len() >= 4 ==> sanitized@ == base,
            base.len() < 4 ==> sanitized@.len() <= 4 && sanitized@ == base + Seq::new(
                (sanitized@.len() - base.len()) as nat,
                |j: int| '0',
            ),
        decreases 4 - sanitized@.len(),
    {
        sanitized.push('0');
        proof {
            assert(sanitized@ =~= base + Seq::new((sanitized@.len() - base.len()) as nat, |j: int| '0'));
        }
    }
    proof {
        assert(sanitized@ =~= pad_to_min(base));
        if from_filter {
            assert(sanitized@ == spec_normalize(raw@));
        }
    }
    chars_to_string(&sanitized)
}

/// A word that begins, once uppercased, with the given letter.
pub open spec fn starts_with_letter(w: Seq<char>, letter: char) -> bool {
    w.len() > 0 && upper_char(w[0]) == letter
}

/// The subsequence of words beginning with the given letter, order kept.
pub open spec fn matching_nouns_of(s: Seq<Seq<char>>, letter: char) -> Seq<Seq<char>>
    decreases s.len(),
{
    if s.len() == 0 {
        Seq::empty()
    } else {
        matching_nouns_of(s.drop_last(), letter) + if starts_with_letter(s.last(), letter) {
            seq![s.last()]
        } else {
            Seq::empty()
        }
    }
}

/// The embedded nouns beginning with the given letter, in list order.
pub open spec fn matching_nouns(letter: char) -> Seq<Seq<char>> {
    matching_nouns_of(data::spec_nouns(), letter)
}

/// The uppercase letter that guides noun choice for an adjective ('A' for an
/// empty adjective, which the embedded list never produces).
pub open spec fn spec_first_letter(adj: Seq<char>) -> char {
    if adj.len() > 0 {
        upper_char(adj[0])
    } else {
        'A'
    }
}

/// Which noun a seed selects for an adjective: among the nouns sharing the
/// adjective's first letter when there are any, among all nouns otherwise.
pub open spec fn spec_select_noun(adj: Seq<char>, seed: nat) -> Seq<char> {
    let letter = spec_first_letter(adj);
    let matching = matching_nouns(letter);
    if matching.len() > 0 {
        matching[(seed % matching.len()) as int]
    } else {
        data::spec_nouns()[(seed % data::spec_nouns().len()) as int]
    }
}

/// Every selected-out word begins with the letter it was filtered by.
pub proof fn lemma_matching_members(s: Seq<Seq<char>>, letter: char)
    ensures
        forall|k: int|
            0 <= k < matching_nouns_of(s, letter).len() ==> starts_with_letter(
                #[trigger] matching_nouns_of(s, letter)[k],
                letter,
            ),
    decreases s.len(),
{
    if s.len() > 0 {
        lemma_matching_members(s.drop_last(), letter);
        assert forall|k: int| 0 <= k < matching_nouns_of(s, letter).len() implies starts_with_letter(
            #[trigger] matching_nouns_of(s, letter)[k],
            letter,
        ) by {
            let head = matching_nouns_of(s.drop_last(), letter);
            if k < head.len() {
                assert(matching_nouns_of(s, letter)[k] == head[k]);
            } else {
                assert(starts_with_letter(s.last(), letter));
                assert(matching_nouns_of(s, letter)[k] == s.last());
            }
        }
    }
}

/// Every selected-out word is one of the words of the original list.
pub proof fn lemma_matching_subset(s: Seq<Seq<char>>, letter: char)
    ensures
        forall|k: int|
            0 <= k < matching_nouns_of(s, letter).len() ==> s.contains(
                #[trigger] matching_nouns_of(s, letter)[k],
            ),
    decreases s.len(),
{
    if s.len() > 0 {
        lemma_matching_subset(s.drop_last(), letter);
        assert forall|k: int| 0 <= k < matching_nouns_of(s, letter).len() implies s.contains(
            #[trigger] matching_nouns_of(s, letter)[k],
        ) by {
            let head = matching_nouns_of(s.drop_last(), letter);
            if k < head.len() {
                assert(matching_nouns_of(s, letter)[k] == head[k]);
                assert(s.drop_last().contains(head[k]));
                let j = choose|j: int| 0 <= j < s.drop_last().len() && s.drop_last()[j] == head[k];
                assert(s[j] == head[k]);
            } else {
                assert(matching_nouns_of(s, letter)[k] == s.last());
                assert(s[s.len() - 1] == s.last());
            }
        }
    }
}

/// A word of the list that begins with the letter forces a non-empty
/// selection for that letter.
pub proof fn lemma_matching_nonempty(s: Seq<Seq<char>>, letter: char, j: int)
    requires
        0 <= j < s.len(),
        starts_with_letter(s[j], letter),
    ensures
        matching_nouns_of(s, letter).len() > 0,
    decreases s.len(),
{
    if j < s.len() - 1 {
        assert(s.drop_last()[j] == s[j]);
        lemma_matching_nonempty(s.drop_last(), letter, j);
    }
}

/// Pick the noun for an adjective and a noun seed: a noun sharing the
/// adjective's first letter when one exists, any noun otherwise, the seed
/// deciding which by modulo indexing.
pub fn select_noun(adjective: &str, noun_seed: usize) -> (r: String)
    ensures
        r@ == spec_select_noun(adjective@, noun_seed as nat),
{
    let letter = if adjective.unicode_len() > 0 {
        upper_char_exec(adjective.get_char(0))
    } else {
        'A'
    };
    let nouns = data::nouns();
    let mut matching: Vec<String> = Vec::new();
    let ghost all = data::spec_nouns();
    let mut i: usize = 0;
    while i < nouns.len()
        invariant
            nouns@.len() == all.len(),
            forall|k: int| 0 <= k < nouns@.len() ==> #[trigger] nouns@[k]@ == all[k],
            i <= nouns@.len(),
            matching@.len() == matching_nouns_of(all.take(i as int), letter).len(),
            forall|k: int|
                0 <= k < matching@.len() ==> #[trigger] matching@[k]@ == matching_nouns_of(
                    all.take(i as int),
                    letter,
                )[k],
        decreases nouns@.len() - i,
    {
        let noun = &nouns[i];
        if noun.as_str().unicode_len() > 0 && upper_char_exec(noun.as_str().get_char(0)) == letter {
            matching.push(noun.clone());
        }
        proof {
            let t = all.take(i + 1 as int);
            assert(t.drop_last() =~= all.take(i as int));
            assert(t.last() == nouns@[i as int]@);
        }
        i += 1;
    }
    proof {
        assert(all.take(all.len() as int) =~= all);
    }
    if matching.len() > 0 {
        let k = noun_seed % matching.len();
        matching[k].clone()
    } else {
        let k = noun_seed % nouns.len();
        nouns[k].clone()
    }
}

/// Character-wise ASCII lowercasing of a word.
pub open spec fn lower_seq(s: Seq<char>) -> Seq<char> {
    Seq::new(s.len(), |i: int| lower_char(s[i]))
}

/// The name derived from a well-formed normalized seed: the first two digits
/// choose the adjective, the next two choose the noun, and the two words are
/// joined by a hyphen and lowercased.
pub open spec fn spec_generate_from_normalized(norm: Seq<char>) -> Seq<char> {
    let adj_seed = spec_hex_pair_value(norm[0], norm[1]);
    let noun_seed = spec_hex_pair_value(norm[2], norm[3]);
    let adjective = data::spec_adjectives()[(adj_seed % data::spec_adjectives().len()) as int];
    let noun = spec_select_noun(adjective, noun_seed);
    lower_seq(adjective) + seq!['-'] + lower_seq(noun)
}

/// The name generated from a raw seed with hexadecimal content.
pub open spec fn spec_generate(raw: Seq<char>) -> Seq<char> {
    spec_generate_from_normalized(spec_normalize(raw))
}

/// The shape of every generated name: two non-empty runs of lowercase ASCII
/// letters joined by exactly one hyphen.
pub open spec fn spec_name_format(s: Seq<char>) -> bool {
    exists|k: int|
        0 < k < s.len() - 1 && #[trigger] s[k] == '-' && (forall|j: int|
            0 <= j < s.len() && j != k ==> is_lower_alpha(#[trigger] s[j]))
}

/// Lowercase the characters of a word into a fresh character vector.
fn lower_chars(w: &str) -> (r: Vec<char>)
    ensures
        r@ == lower_seq(w@),
{
    let n = w.unicode_len();
    let mut r: Vec<char> = Vec::new();
    let mut i: usize = 0;
    while i < n
        invariant
            n == w@.len(),
            i <= n,
            r@ == lower_seq(w@.take(i as int)),
        decreases n - i,
    {
        let c = lower_char_exec(w.get_char(i));
        r.push(c);
        proof {
            assert(r@ =~= lower_seq(w@.take(i + 1 as int)));
        }
        i += 1;
    }
    proof {
        assert(w@.take(n as int) =~= w@);
    }
    r
}

/// A generated name is always two non-empty lowercase words joined by one
/// hyphen, whatever well-formed normalized seed it came from.
pub proof fn lemma_generated_format(norm: Seq<char>)
    requires
        normalized_wf(norm),
    ensures
        spec_name_format(spec_generate_from_normalized(norm)),
{
    data::lemma_words_wf();
    let adj_seed = spec_hex_pair_value(norm[0], norm[1]);
    let noun_seed = spec_hex_pair_value(norm[2], norm[3]);
    let adjective = data::spec_adjectives()[(adj_seed % data::spec_adjectives().len()) as int];
    let noun = spec_select_noun(adjective, noun_seed);
    let letter = spec_first_letter(adjective);
    if matching_nouns(letter).len() > 0 {
        lemma_matching_subset(data::spec_nouns(), letter);
        let m = matching_nouns(letter);
        let k = (noun_seed % m.len()) as int;
        assert(data::spec_nouns().contains(m[k]));
    }
    assert(data::word_wf(adjective));
    assert(data::word_wf(noun));
    let s = spec_generate_from_normalized(norm);
    let k = lower_seq(adjective).len() as int;
    assert(s[k] == '-');
    assert forall|j: int| 0 <= j < s.len() && j != k implies is_lower_alpha(#[trigger] s[j]) by {
        if j < k {
            assert(s[j] == lower_char(adjective[j]));
        } else {
            assert(s[j] == lower_char(noun[j - k - 1]));
        }
    }
}

/// Determinism: a seed with hexadecimal content fixes the generated name.
/// Any two results obtained from the same such seed are equal.
pub proof fn lemma_generate_deterministic(raw: Seq<char>, r1: Seq<char>, r2: Seq<char>)
    requires
        filter_hex(raw).len() > 0,
        r1 == spec_generate(raw),
        r2 == spec_generate(raw),
    ensures
        r1 == r2,
{
}

/// Range safety: the derived adjective index always falls inside the
/// adjective list, and the derived noun index inside whichever list the
/// selection draws from.
pub proof fn lemma_index_ranges(norm: Seq<char>)
    requires
        normalized_wf(norm),
    ensures
        spec_hex_pair_value(norm[0], norm[1]) % data::spec_adjectives().len()
            < data::spec_adjectives().len(),
        ({
            let adjective = data::spec_adjectives()[(spec_hex_pair_value(norm[0], norm[1])
                % data::spec_adjectives().len()) as int];
            let noun_seed = spec_hex_pair_value(norm[2], norm[3]);
            let matching = matching_nouns(spec_first_letter(adjective));
            &&& matching.len() > 0 ==> noun_seed % matching.len() < matching.len()
            &&& matching.len() == 0 ==> noun_seed % data::spec_nouns().len()
                < data::spec_nouns().len()
        }),
{
}

/// Alliteration: whenever some noun shares the chosen adjective's first
/// letter, the noun the seed selects starts with that very letter.
pub proof fn lemma_alliteration(adj: Seq<char>, seed: nat)
    ensures
        matching_nouns(spec_first_letter(adj)).len() > 0 ==> starts_with_letter(
            spec_select_noun(adj, seed),
            spec_first_letter(adj),
        ),
{
    let letter = spec_first_letter(adj);
    if matching_nouns(letter).len() > 0 {
        lemma_matching_members(data::spec_nouns(), letter);
    }
}

/// Every embedded adjective's first letter begins at least one embedded
/// noun: the fallback to the full noun list can never be taken.
pub proof fn lemma_adjective_letters_covered()
    ensures
        forall|i: int|
            0 <= i < data::spec_adjectives().len() ==> matching_nouns(
                spec_first_letter(#[trigger] data::spec_adjectives()[i]),
            ).len() > 0,
{
    assert forall|i: int| 0 <= i < data::spec_adjectives().len() implies matching_nouns(
        spec_first_letter(#[trigger] data::spec_adjectives()[i]),
    ).len() > 0 by {
        let nouns = data::spec_nouns();
        if i == 0 {
            lemma_matching_nonempty(nouns, spec_first_letter(data::spec_adjectives()[i]), 0);
        } else if i == 1 {
            lemma_matching_nonempty(nouns, spec_first_letter(data::spec_adjectives()[i]), 2);
        } else if i == 2 {
            lemma_matching_nonempty(nouns, spec_first_letter(data::spec_adjectives()[i]), 3);
        } else if i == 3 {
            lemma_matching_nonempty(nouns, spec_first_letter(data::spec_adjectives()[i]), 4);
        } else if i == 4 {
            lemma_matching_nonempty(nouns, spec_first_letter(data::spec_adjectives()[i]), 7);
        } else if i == 5 {
            lemma_matching_nonempty(nouns, spec_first_letter(data::spec_adjectives()[i]), 8);
        } else if i == 6 {
            lemma_matching_nonempty(nouns, spec_first_letter(data::spec_adjectives()[i]), 9);
        } else {
            lemma_matching_nonempty(nouns, spec_first_letter(data::spec_adjectives()[i]), 10);
        }
    }
}

/// Alliteration holds unconditionally of the embedded lists: the noun chosen
/// for any well-formed normalized seed starts with the chosen adjective's
/// first letter.
pub proof fn lemma_always_alliterative(norm: Seq<char>)
    requires
        normalized_wf(norm),
    ensures
        ({
            let adjective = data::spec_adjectives()[(spec_hex_pair_value(norm[0], norm[1])
                % data::spec_adjectives().len()) as int];
            let noun_seed = spec_hex_pair_value(norm[2], norm[3]);
            starts_with_letter(
                spec_select_noun(adjective, noun_seed),
                spec_first_letter(adjective),
            )
        }),
{
    let ai = (spec_hex_pair_value(norm[0], norm[1]) % data::spec_adjectives().len()) as int;
    let adjective = data::spec_adjectives()[ai];
    let noun_seed = spec_hex_pair_value(norm[2], norm[3]);
    lemma_adjective_letters_covered();
    assert(matching_nouns(spec_first_letter(adjective)).len() > 0);
    lemma_alliteration(adjective, noun_seed);
}

/// The stateless name generator over the embedded word lists.
#[derive(Default)]
pub struct ReleaseNameGenerator;

impl ReleaseNameGenerator {
    /// Derive the release name for a raw seed. The result is a pure function
    /// of the seed whenever the seed has hexadecimal content; it always comes
    /// from some well-formed normalized seed, and always has the
    /// adjective-hyphen-noun shape.
    pub fn generate(&self, raw_sha: &str) -> (r: String)
        ensures
            filter_hex(raw_sha@).len() > 0 ==> r@ == spec_generate(raw_sha@),
            exists|norm: Seq<char>|
                normalized_wf(norm) && r@ == #[trigger] spec_generate_from_normalized(norm),
            spec_name_format(r@),
    {
        let normalized = normalize_sha(raw_sha);
        let ghost norm = normalized@;
        let c0 = normalized.as_str().get_char(0);
        let c1 = normalized.as_str().get_char(1);
        let c2 = normalized.as_str().get_char(2);
        let c3 = normalized.as_str().get_char(3);
        let adj_seed = hex_pair_to_value(c0, c1);
        let noun_seed = hex_pair_to_value(c2, c3);
        let adjectives = data::adjectives();
        let ai = adj_seed % adjectives.len();
        let adjective = &adjectives[ai];
        let noun = select_noun(adjective.as_str(), noun_seed);
        let mut out = lower_chars(adjective.as_str());
        out.push('-');
        let mut noun_chars = lower_chars(noun.as_str());
        out.append(&mut noun_chars);
        let r = chars_to_string(&out);
        proof {
            assert(r@ =~= spec_generate_from_normalized(norm));
            lemma_generated_format(norm);
        }
        r
    }
}

} // verus!
