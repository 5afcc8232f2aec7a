//! Which files the scanner lists, and when a directory counts as an album.

use vstd::prelude::*;

use std::sync::Arc;

use crate::models::file_tree::{collapse, cover_bytes, forest_view, string_views, FileTreeNode, NodeView};
use crate::paths::{display_name, display_name_of, extension, path_extension};
use crate::text::{
    all_digits, chars_equal, chars_of, is_alphanumeric, lowercase_of, lowercase_text, lowercased,
    parse_unsigned, trim, trimmed,
    unicode_alphanumeric, unicode_lowercase,
};

verus! {

/// Whether an extension names a format whose tags audiotags reads: `mp3`, `flac`,
/// `m4a`, `m4b` or `mp4`, in any ASCII case.
pub open spec fn supported_extension(ext: Seq<char>) -> bool {
    let lower = ext.map_values(|c: char| ascii_lowercase(c));
    ||| lower == seq!['m', 'p', '3']
    ||| lower == seq!['f', 'l', 'a', 'c']
    ||| lower == seq!['m', '4', 'a']
    ||| lower == seq!['m', '4', 'b']
    ||| lower == seq!['m', 'p', '4']
}

/// The lowercase of an ASCII capital letter; any other character unchanged.
pub open spec fn ascii_lowercase(c: char) -> char {
    if 'A' <= c && c <= 'Z' {
        ((c as u32) + 32) as char
    } else {
        c
    }
}

fn lower(c: char) -> (r: char)
    ensures
        r == ascii_lowercase(c),
{
    if 'A' <= c && c <= 'Z' {
        ((c as u32) + 32) as u8 as char
    } else {
        c
    }
}

fn matches_letters(chars: &[char], word: &[char]) -> (r: bool)
    ensures
        r == (chars@.map_values(|c: char| ascii_lowercase(c)) == word@),
{
    let ghost lowered = chars@.map_values(|c: char| ascii_lowercase(c));
    if chars.len() != word.len() {
        assert(lowered.len() != word@.len());
        return false;
    }
    let mut i: usize = 0;
    while i < chars.len()
        invariant
            chars@.len() == word@.len(),
            i <= chars@.len(),
            lowered == chars@.map_values(|c: char| ascii_lowercase(c)),
            forall|j: int| 0 <= j < i ==> lowered[j] == word@[j],
        decreases chars@.len() - i,
    {
        if lower(chars[i]) != word[i] {
            assert(lowered[i as int] != word@[i as int]);
            return false;
        }
        i = i + 1;
    }
    assert(lowered =~= word@);
    true
}

/// Whether a path names an audio file the editor supports, by its extension.
pub fn is_supported_audio(path: &str) -> (r: bool)
    ensures
        r == supported_audio_path(path@),
{
    let ext = match extension(path) {
        Some(ext) => ext,
        None => return false,
    };
    let mp3 = vec!['m', 'p', '3'];
    let flac = vec!['f', 'l', 'a', 'c'];
    let m4a = vec!['m', '4', 'a'];
    let m4b = vec!['m', '4', 'b'];
    let mp4 = vec!['m', 'p', '4'];
    assert(mp3@ =~= seq!['m', 'p', '3']);
    assert(flac@ =~= seq!['f', 'l', 'a', 'c']);
    assert(m4a@ =~= seq!['m', '4', 'a']);
    assert(m4b@ =~= seq!['m', '4', 'b']);
    assert(mp4@ =~= seq!['m', 'p', '4']);
    matches_letters(&ext, &mp3) || matches_letters(&ext, &flac) || matches_letters(&ext, &m4a)
        || matches_letters(&ext, &m4b) || matches_letters(&ext, &mp4)
}

/// Whether a character separates a leading year or disc number from an album
/// name: `-`, `_`, an en dash or an em dash.
pub open spec fn is_separator(c: char) -> bool {
    c == '-' || c == '_' || c == '\u{2013}' || c == '\u{2014}'
}

/// The index of the first separator in `s`.
pub open spec fn first_separator(s: Seq<char>) -> Option<int>
    decreases s.len(),
{
    if s.len() == 0 {
        None
    } else {
        match first_separator(s.drop_last()) {
            Some(i) => Some(i),
            None => if is_separator(s.last()) { Some(s.len() - 1) } else { None },
        }
    }
}

/// Whether text before a separator is a leading number that the album name does
/// not include: digits only, and four of them or a value that fits in `u32`.
pub open spec fn is_number_prefix(prefix: Seq<char>) -> bool {
    all_digits(prefix) && (prefix.len() == 4 || parse_unsigned(prefix, 4294967295) is Some)
}

/// The album name without a leading number and separator (such as `2024 - `).
pub open spec fn without_number_prefix(name: Seq<char>) -> Seq<char> {
    let trimmed = trim(name);
    match first_separator(trimmed) {
        Some(i) => if is_number_prefix(trim(trimmed.take(i))) {
            trim(trimmed.skip(i + 1))
        } else {
            trimmed
        },
        None => trimmed,
    }
}

/// The lowercase letters and digits of `s`, in order.
pub open spec fn lower_alphanumeric(s: Seq<char>) -> Seq<char>
    decreases s.len(),
{
    if s.len() == 0 {
        Seq::empty()
    } else {
        lower_alphanumeric(s.drop_last()) + unicode_lowercase(s.last()).filter(
            |c: char| unicode_alphanumeric(c),
        )
    }
}

/// The form in which album names are compared: without a leading number, then
/// only its lowercase letters and digits.
pub open spec fn normalized_album_name(name: Seq<char>) -> Seq<char> {
    lower_alphanumeric(without_number_prefix(name))
}

fn first_separator_of(s: &[char]) -> (r: Option<usize>)
    ensures
        match r {
            Some(i) => first_separator(s@) == Some(i as int) && i < s@.len(),
            None => first_separator(s@) is None,
        },
{
    let mut i: usize = 0;
    assert(s@.take(0) =~= Seq::<char>::empty());
    while i < s.len()
        invariant
            i <= s@.len(),
            first_separator(s@.take(i as int)) is None,
        decreases s@.len() - i,
    {
        assert(s@.take(i + 1).drop_last() =~= s@.take(i as int));
        let c = s[i];
        if c == '-' || c == '_' || c == '\u{2013}' || c == '\u{2014}' {
            proof {
                lemma_first_separator_extends(s@, i + 1);
            }
            return Some(i);
        }
        i = i + 1;
    }
    assert(s@.take(i as int) =~= s@);
    None
}

proof fn lemma_first_separator_extends(s: Seq<char>, i: int)
    requires
        0 <= i <= s.len(),
        first_separator(s.take(i)) is Some,
    ensures
        first_separator(s) == first_separator(s.take(i)),
    decreases s.len() - i,
{
    if i < s.len() {
        assert(s.take(i + 1).drop_last() =~= s.take(i));
        lemma_first_separator_extends(s, i + 1);
    } else {
        assert(s.take(i) =~= s);
    }
}

fn all_ascii_digits(s: &[char]) -> (r: bool)
    ensures
        r == all_digits(s@),
{
    let mut i: usize = 0;
    while i < s.len()
        invariant
            i <= s@.len(),
            forall|j: int| 0 <= j < i ==> crate::text::is_digit(#[trigger] s@[j]),
        decreases s@.len() - i,
    {
        if !('0' <= s[i] && s[i] <= '9') {
            return false;
        }
        i = i + 1;
    }
    true
}

fn slice_of(s: &[char], from: usize, to: usize) -> (r: Vec<char>)
    requires
        from <= to <= s@.len(),
    ensures
        r@ == s@.subrange(from as int, to as int),
{
    let mut out: Vec<char> = Vec::new();
    let mut k: usize = from;
    while k < to
        invariant
            from <= k <= to,
            to <= s@.len(),
            out@ == s@.subrange(from as int, k as int),
        decreases to - k,
    {
        out.push(s[k]);
        k = k + 1;
        assert(out@ =~= s@.subrange(from as int, k as int));
    }
    out
}

/// The form in which album names are compared (see [`normalized_album_name`]).
pub fn normalize_album_name(name: &str) -> (r: Vec<char>)
    ensures
        r@ == normalized_album_name(name@),
{
    let all = chars_of(name);
    let trimmed_name = trimmed(&all);
    let without_prefix = match first_separator_of(&trimmed_name) {
        Some(i) => {
            let prefix = trimmed(&slice_of(&trimmed_name, 0, i));
            let prefix_text = crate::text::string_of(&prefix);
            let is_number = all_ascii_digits(&prefix) && (prefix.len() == 4
                || crate::text::parse_unsigned_at_most(prefix_text.as_str(), 4294967295).is_some());
            assert(trimmed_name@.subrange(0, i as int) =~= trimmed_name@.take(i as int));
            if is_number {
                let n = trimmed_name.len();
                let suffix = slice_of(&trimmed_name, i + 1, n);
                assert(suffix@ =~= trimmed_name@.skip(i + 1));
                trimmed(&suffix)
            } else {
                trimmed_name
            }
        },
        None => trimmed_name,
    };
    let mut out: Vec<char> = Vec::new();
    let mut k: usize = 0;
    while k < without_prefix.len()
        invariant
            k <= without_prefix@.len(),
            without_prefix@ == without_number_prefix(name@),
            out@ == lower_alphanumeric(without_prefix@.take(k as int)),
        decreases without_prefix@.len() - k,
    {
        let lowered = lowercase_of(without_prefix[k]);
        let ghost keep = |c: char| unicode_alphanumeric(c);
        let ghost before = out@;
        let mut j: usize = 0;
        assert(lowered@.take(0).filter(keep) =~= Seq::<char>::empty()) by {
            reveal_with_fuel(Seq::<_>::filter, 1);
        }
        while j < lowered.len()
            invariant
                j <= lowered@.len(),
                keep == (|c: char| unicode_alphanumeric(c)),
                out@ == before + lowered@.take(j as int).filter(keep),
            decreases lowered@.len() - j,
        {
            assert(lowered@.take(j + 1).drop_last() =~= lowered@.take(j as int));
            reveal_with_fuel(Seq::<_>::filter, 1);
            if is_alphanumeric(lowered[j]) {
                out.push(lowered[j]);
            }
            j = j + 1;
            assert(out@ =~= before + lowered@.take(j as int).filter(keep));
        }
        assert(lowered@.take(j as int) =~= lowered@);
        assert(without_prefix@.take(k + 1).drop_last() =~= without_prefix@.take(k as int));
        k = k + 1;
    }
    assert(without_prefix@.take(k as int) =~= without_prefix@);
    out
}


/// Whether `p` is a pair of adjacent characters of `s`.
pub open spec fn is_bigram_of(s: Seq<char>, p: (char, char)) -> bool {
    exists|i: int| #![trigger s[i]] 0 <= i < s.len() - 1 && s[i] == p.0 && s[i + 1] == p.1
}

/// The set of pairs of adjacent characters of `s`.
pub open spec fn bigram_set(s: Seq<char>) -> Set<(char, char)> {
    Set::new(|p: (char, char)| is_bigram_of(s, p))
}

/// Whether `needle` occurs in `hay`.
pub open spec fn contains_text(hay: Seq<char>, needle: Seq<char>) -> bool {
    exists|i: int| 0 <= i && i + needle.len() <= hay.len() && #[trigger] hay.subrange(i, i + needle.len()) == needle
}

/// How alike a directory name and an album name are, as a fraction (numerator,
/// denominator) from 0 to 1, both names normalized first: 1 when equal, 0 when
/// either is empty or, unequal, shorter than three characters, 17/20 when one
/// contains the other, and otherwise the share of adjacent-character pairs that
/// the two have in common among all their pairs.
pub open spec fn similarity(directory_name: Seq<char>, album_name: Seq<char>) -> (int, int) {
    let d = normalized_album_name(directory_name);
    let a = normalized_album_name(album_name);
    if d.len() == 0 || a.len() == 0 {
        (0, 1)
    } else if d == a {
        (1, 1)
    } else if d.len() < 3 || a.len() < 3 {
        (0, 1)
    } else if contains_text(d, a) || contains_text(a, d) {
        (17, 20)
    } else {
        let left = bigram_set(d);
        let right = bigram_set(a);
        let all = left.union(right).len();
        if all == 0 {
            (0, 1)
        } else {
            (left.intersect(right).len() as int, all as int)
        }
    }
}

/// Whether a similarity reaches the album threshold of 7/10.
pub open spec fn similar_enough(ratio: (int, int)) -> bool {
    ratio.0 * 10 >= ratio.1 * 7
}

/// The number of times `key` occurs in `keys`.
pub open spec fn occurrences(keys: Seq<Seq<char>>, key: Seq<char>) -> nat {
    keys.filter(|k: Seq<char>| k == key).len()
}

/// The normalized forms of several names.
pub open spec fn normalized_all(names: Seq<Seq<char>>) -> Seq<Seq<char>> {
    names.map_values(|name: Seq<char>| normalized_album_name(name))
}

/// The number of names whose normalized form is `key`.
pub open spec fn count_normalized(names: Seq<Seq<char>>, key: Seq<char>) -> nat {
    occurrences(normalized_all(names), key)
}

/// Whether a directory is an album: it holds audio files, and some non-empty
/// normalized album tag is held by more than half of them and is similar enough
/// to the directory's name.
pub open spec fn is_album(directory_name: Seq<char>, audio_file_count: nat, album_names: Seq<Seq<char>>) -> bool {
    audio_file_count > 0 && exists|i: int|
        0 <= i < album_names.len() && {
            let key = normalized_album_name(#[trigger] album_names[i]);
            &&& key.len() > 0
            &&& count_normalized(album_names, key) * 2 > audio_file_count
            &&& similar_enough(similarity(directory_name, key))
        }
}

/// A strict majority suffices: when the directory holds audio files and the
/// normalized form of one of the album tags is not empty, is carried by more than
/// half of the files, and is at least 7/10 similar to the directory's name, the
/// directory is an album. Conversely an album has such a tag.
pub proof fn law_a_similar_majority_tag_makes_an_album(
    directory_name: Seq<char>,
    audio_file_count: nat,
    album_names: Seq<Seq<char>>,
    i: int,
)
    requires
        audio_file_count > 0,
        0 <= i < album_names.len(),
        normalized_album_name(album_names[i]).len() > 0,
        count_normalized(album_names, normalized_album_name(album_names[i])) * 2 > audio_file_count,
        similarity(directory_name, normalized_album_name(album_names[i])).0 * 10 >= similarity(
            directory_name,
            normalized_album_name(album_names[i]),
        ).1 * 7,
    ensures
        is_album(directory_name, audio_file_count, album_names),
{
    assert(similar_enough(similarity(directory_name, normalized_album_name(album_names[i]))));
}

proof fn lemma_bigram_set_finite(s: Seq<char>)
    ensures
        bigram_set(s).finite(),
{
    let n = if s.len() > 0 { s.len() - 1 } else { 0 };
    let pairs = Seq::new(n as nat, |i: int| (s[i], s[i + 1]));
    assert forall|p: (char, char)| bigram_set(s).contains(p) <==> #[trigger] pairs.to_set().contains(p) by {
        if bigram_set(s).contains(p) {
            let i = choose|i: int| #![trigger s[i]] 0 <= i < s.len() - 1 && s[i] == p.0 && s[i + 1] == p.1;
            assert(pairs[i] == p);
        }
        if pairs.to_set().contains(p) {
            let i = choose|i: int| 0 <= i < pairs.len() && pairs[i] == p;
            assert(s[i] == p.0 && s[i + 1] == p.1);
        }
    }
    assert(bigram_set(s) =~= pairs.to_set());
    vstd::seq_lib::seq_to_set_is_finite(pairs);
}

/// How alike two names are, compared after normalizing both: not at all when
/// either normalizes to nothing; fully when they normalize to the same text; by
/// 17/20 when, unequal and both at least three characters long, one contains the
/// other; and never more than fully.
pub proof fn law_name_similarity(directory_name: Seq<char>, album_name: Seq<char>)
    ensures
        ({
            let d = normalized_album_name(directory_name);
            let a = normalized_album_name(album_name);
            let (shared, all) = similarity(directory_name, album_name);
            &&& d.len() == 0 || a.len() == 0 ==> shared == 0 && all == 1
            &&& d.len() > 0 && d == a ==> shared == 1 && all == 1
            &&& d != a && d.len() >= 3 && a.len() >= 3 && (contains_text(d, a) || contains_text(a, d))
                ==> shared == 17 && all == 20
            &&& 0 <= shared <= all && all > 0
        }),
{
    let d = normalized_album_name(directory_name);
    let a = normalized_album_name(album_name);
    let left = bigram_set(d);
    let right = bigram_set(a);
    if d.len() > 0 && a.len() > 0 && d != a && d.len() >= 3 && a.len() >= 3 && !(contains_text(d, a)
        || contains_text(a, d)) {
        lemma_bigram_set_finite(d);
        lemma_bigram_set_finite(a);
        vstd::set_lib::lemma_set_union_finite_iff(left, right);
        vstd::set_lib::lemma_len_intersect(left, right);
        vstd::set_lib::lemma_len_subset(left, left.union(right));
    }
}

/// An album holds audio files and has an album tag whose normalized form is not
/// empty, is carried by more than half of the files and is at least 7/10 similar
/// to the directory's name.
pub proof fn law_an_album_has_a_similar_majority_tag(
    directory_name: Seq<char>,
    audio_file_count: nat,
    album_names: Seq<Seq<char>>,
)
    requires
        is_album(directory_name, audio_file_count, album_names),
    ensures
        audio_file_count > 0,
        exists|i: int|
            0 <= i < album_names.len() && {
                let key = normalized_album_name(#[trigger] album_names[i]);
                &&& key.len() > 0
                &&& count_normalized(album_names, key) * 2 > audio_file_count
                &&& similarity(directory_name, key).0 * 10 >= similarity(directory_name, key).1 * 7
            },
{
}

/// The count of a normalized album tag counts the tags that normalize to it: none
/// among no tags, and one more for each further tag that normalizes to it.
pub proof fn law_counting_album_tags(album_names: Seq<Seq<char>>, name: Seq<char>, key: Seq<char>)
    ensures
        count_normalized(Seq::empty(), key) == 0,
        count_normalized(album_names.push(name), key) == count_normalized(album_names, key) + if normalized_album_name(
            name,
        ) == key {
            1int
        } else {
            0int
        },
{
    reveal_with_fuel(Seq::<_>::filter, 1);
    assert(normalized_all(Seq::<Seq<char>>::empty()) =~= Seq::<Seq<char>>::empty());
    let all = normalized_all(album_names.push(name));
    assert(all =~= normalized_all(album_names).push(normalized_album_name(name)));
    assert(all.drop_last() =~= normalized_all(album_names));
}

fn pair_in(pairs: &Vec<(char, char)>, p: (char, char)) -> (r: bool)
    ensures
        r == pairs@.contains(p),
{
    let mut i: usize = 0;
    while i < pairs.len()
        invariant
            i <= pairs@.len(),
            forall|j: int| 0 <= j < i ==> pairs@[j] != p,
        decreases pairs@.len() - i,
    {
        let q = pairs[i];
        if q.0 == p.0 && q.1 == p.1 {
            assert(pairs@[i as int] == p);
            return true;
        }
        i = i + 1;
    }
    false
}

/// The distinct pairs of adjacent characters of `s`.
fn bigrams(s: &Vec<char>) -> (r: Vec<(char, char)>)
    ensures
        r@.no_duplicates(),
        r@.to_set() == bigram_set(s@),
{
    let mut out: Vec<(char, char)> = Vec::new();
    if s.len() < 2 {
        assert(out@.to_set() =~= bigram_set(s@));
        return out;
    }
    let n = s.len();
    let mut i: usize = 0;
    while i + 1 < n
        invariant
            s@.len() >= 2,
            n == s@.len(),
            i + 1 <= s@.len(),
            out@.no_duplicates(),
            forall|p: (char, char)| #[trigger] out@.contains(p) <==> exists|j: int| #![trigger s@[j]] 0 <= j < i && s@[j] == p.0 && s@[j + 1] == p.1,
        decreases s@.len() - i,
    {
        let p = (s[i], s[i + 1]);
        let ghost before = out@;
        if !pair_in(&out, p) {
            out.push(p);
            assert forall|q: (char, char)| #[trigger] out@.contains(q) <==> (before.contains(q) || q == p) by {
                if out@.contains(q) {
                    let k = choose|k: int| 0 <= k < out@.len() && out@[k] == q;
                    if k < before.len() {
                        assert(before[k] == q);
                    }
                }
                if before.contains(q) {
                    let k = choose|k: int| 0 <= k < before.len() && before[k] == q;
                    assert(out@[k] == q);
                }
                if q == p {
                    assert(out@[before.len() as int] == p);
                }
            }
        }
        proof {
            assert forall|q: (char, char)| #[trigger] out@.contains(q) <==> exists|j: int| #![trigger s@[j]] 0 <= j < i + 1 && s@[j] == q.0 && s@[j + 1] == q.1 by {
                if exists|j: int| #![trigger s@[j]] 0 <= j < i + 1 && s@[j] == q.0 && s@[j + 1] == q.1 {
                    let j = choose|j: int| #![trigger s@[j]] 0 <= j < i + 1 && s@[j] == q.0 && s@[j + 1] == q.1;
                    if j < i {
                        assert(before.contains(q));
                    }
                }
            }
        }
        i = i + 1;
    }
    assert forall|p: (char, char)| #[trigger] out@.to_set().contains(p) <==> bigram_set(s@).contains(p) by {
        if bigram_set(s@).contains(p) {
            let j = choose|j: int| #![trigger s@[j]] 0 <= j < s@.len() - 1 && s@[j] == p.0 && s@[j + 1] == p.1;
            assert(exists|k: int| #![trigger s@[k]] 0 <= k < i && s@[k] == p.0 && s@[k + 1] == p.1);
        }
    }
    assert(out@.to_set() =~= bigram_set(s@));
    out
}

fn text_contains(hay: &Vec<char>, needle: &Vec<char>) -> (r: bool)
    ensures
        r == contains_text(hay@, needle@),
{
    let n = hay.len();
    let m = needle.len();
    if m > n {
        return false;
    }
    let mut i: usize = 0;
    while i <= n - m
        invariant
            n == hay@.len(),
            m == needle@.len(),
            needle@.len() <= hay@.len(),
            i <= hay@.len() - needle@.len() + 1,
            forall|j: int| 0 <= j < i ==> #[trigger] hay@.subrange(j, j + needle@.len()) != needle@,
        decreases hay@.len() - i,
    {
        let mut k: usize = 0;
        let mut same = true;
        while k < m
            invariant
                n == hay@.len(),
                m == needle@.len(),
                i + needle@.len() <= hay@.len(),
                k <= needle@.len(),
                same == forall|m: int| 0 <= m < k ==> hay@[i + m] == needle@[m],
            decreases needle@.len() - k,
        {
            if hay[i + k] != needle[k] {
                same = false;
            }
            k = k + 1;
        }
        if same {
            assert(hay@.subrange(i as int, i + needle@.len()) =~= needle@);
            return true;
        }
        assert(hay@.subrange(i as int, i + needle@.len()) != needle@) by {
            let m = choose|m: int| 0 <= m < needle@.len() && hay@[i + m] != needle@[m];
            assert(hay@.subrange(i as int, i + needle@.len())[m] != needle@[m]);
        }
        i = i + 1;
    }
    false
}

/// How alike a directory name and an album name are (see [`similarity`]).
pub fn album_name_similarity(directory_name: &str, album_name: &str) -> (r: (usize, usize))
    ensures
        (r.0 as int, r.1 as int) == similarity(directory_name@, album_name@),
{
    let d = normalize_album_name(directory_name);
    let a = normalize_album_name(album_name);
    if d.len() == 0 || a.len() == 0 {
        return (0, 1);
    }
    if crate::text::chars_equal(&d, &a) {
        return (1, 1);
    }
    if d.len() < 3 || a.len() < 3 {
        return (0, 1);
    }
    if text_contains(&d, &a) || text_contains(&a, &d) {
        return (17, 20);
    }
    let left = bigrams(&d);
    let right = bigrams(&a);
    let mut common: Vec<(char, char)> = Vec::new();
    let mut i: usize = 0;
    while i < left.len()
        invariant
            i <= left@.len(),
            left@.no_duplicates(),
            common@.no_duplicates(),
            common@.len() <= i,
            forall|p: (char, char)| #[trigger] common@.contains(p) <==> (left@.take(i as int).contains(p) && right@.contains(p)),
        decreases left@.len() - i,
    {
        let p = left[i];
        let ghost before = common@;
        if pair_in(&right, p) {
            assert(!before.contains(p)) by {
                if before.contains(p) {
                    let k = choose|k: int| #![trigger left@[k]] 0 <= k < i && left@[k] == p;
                    assert(left@[k] == left@[i as int]);
                }
            }
            common.push(p);
        }
        assert forall|q: (char, char)| #[trigger] common@.contains(q) <==> (left@.take(i + 1).contains(q) && right@.contains(q)) by {
            if left@.take(i + 1).contains(q) {
                let k = choose|k: int| #![trigger left@.take(i + 1)[k]] 0 <= k < i + 1 && left@.take(i + 1)[k] == q;
                if k < i {
                    assert(left@.take(i as int)[k] == q);
                }
            }
            if left@.take(i as int).contains(q) {
                let k = choose|k: int| #![trigger left@.take(i as int)[k]] 0 <= k < i && left@.take(i as int)[k] == q;
                assert(left@.take(i + 1)[k] == q);
            }
            if common@.contains(q) && !before.contains(q) {
                assert(left@.take(i + 1)[i as int] == q);
            }
            if before.contains(q) {
                let k = choose|k: int| 0 <= k < before.len() && before[k] == q;
                assert(common@[k] == q);
            }
            if q == p && right@.contains(q) {
                assert(common@[before.len() as int] == q);
            }
        }
        i = i + 1;
    }
    assert(left@.take(i as int) =~= left@);
    let mut all: Vec<(char, char)> = Vec::new();
    let mut c: usize = 0;
    while c < left.len()
        invariant
            c <= left@.len(),
            all@ == left@.take(c as int),
        decreases left@.len() - c,
    {
        all.push(left[c]);
        c = c + 1;
        assert(all@ =~= left@.take(c as int));
    }
    assert(all@ =~= left@);
    let mut j: usize = 0;
    while j < right.len()
        invariant
            j <= right@.len(),
            left@.no_duplicates(),
            right@.no_duplicates(),
            all@.no_duplicates(),
            forall|p: (char, char)| #[trigger] all@.contains(p) <==> (left@.contains(p) || right@.take(j as int).contains(p)),
        decreases right@.len() - j,
    {
        let p = right[j];
        let ghost before = all@;
        if !pair_in(&all, p) {
            all.push(p);
        }
        assert forall|q: (char, char)| #[trigger] all@.contains(q) <==> (left@.contains(q) || right@.take(j + 1).contains(q)) by {
            if right@.take(j + 1).contains(q) {
                let k = choose|k: int| #![trigger right@.take(j + 1)[k]] 0 <= k < j + 1 && right@.take(j + 1)[k] == q;
                if k < j {
                    assert(right@.take(j as int)[k] == q);
                }
            }
            if right@.take(j as int).contains(q) {
                let k = choose|k: int| #![trigger right@.take(j as int)[k]] 0 <= k < j && right@.take(j as int)[k] == q;
                assert(right@.take(j + 1)[k] == q);
            }
            if before.contains(q) {
                let k = choose|k: int| #![trigger before[k]] 0 <= k < before.len() && before[k] == q;
                assert(all@[k] == q);
            }
            if all@.contains(q) && !before.contains(q) {
                assert(right@.take(j + 1)[j as int] == q);
            }
            if q == p {
                if !before.contains(q) {
                    assert(all@[before.len() as int] == q);
                }
            }
        }
        j = j + 1;
    }
    assert(right@.take(j as int) =~= right@);
    proof {
        let ls = left@.to_set();
        let rs = right@.to_set();
        common@.unique_seq_to_set();
        all@.unique_seq_to_set();
        assert(common@.to_set() =~= ls.intersect(rs));
        assert(all@.to_set() =~= ls.union(rs));
    }
    let union_size = all.len();
    if union_size == 0 {
        return (0, 1);
    }
    (common.len(), union_size)
}

fn count_key(keys: &Vec<Vec<char>>, key: &Vec<char>) -> (r: usize)
    ensures
        r == occurrences(keys@.map_values(|k: Vec<char>| k@), key@),
{
    let ghost views = keys@.map_values(|k: Vec<char>| k@);
    let ghost same = |k: Seq<char>| k == key@;
    let mut count: usize = 0;
    let mut i: usize = 0;
    assert(views.take(0).filter(same) =~= Seq::<Seq<char>>::empty()) by {
        reveal_with_fuel(Seq::<_>::filter, 1);
    }
    while i < keys.len()
        invariant
            i <= keys@.len(),
            views == keys@.map_values(|k: Vec<char>| k@),
            same == (|k: Seq<char>| k == key@),
            count == views.take(i as int).filter(same).len(),
            count <= i,
        decreases keys@.len() - i,
    {
        assert(views.take(i + 1).drop_last() =~= views.take(i as int));
        reveal_with_fuel(Seq::<_>::filter, 1);
        if crate::text::chars_equal(&keys[i], key) {
            count = count + 1;
        }
        i = i + 1;
    }
    assert(views.take(i as int) =~= views);
    assert(occurrences(views, key@) == views.filter(same).len());
    count
}

/// Whether a directory with this name, holding this many audio files whose album
/// tags are `album_names`, is an album (see [`is_album`]). The threshold 7/10 is
/// compared exactly; a comparison of the quotient as a 64-bit float against 0.70
/// answers the same for fewer than 10^15 distinct character pairs.
pub fn is_album_directory(directory_name: &str, audio_file_count: usize, album_names: &[String]) -> (r: bool)
    ensures
        r == is_album(
            directory_name@,
            audio_file_count as nat,
            album_names@.map_values(|name: String| name@),
        ),
{
    let ghost names = album_names@.map_values(|name: String| name@);
    if audio_file_count == 0 {
        return false;
    }
    let mut keys: Vec<Vec<char>> = Vec::new();
    let mut i: usize = 0;
    while i < album_names.len()
        invariant
            i <= album_names@.len(),
            names == album_names@.map_values(|name: String| name@),
            keys@.len() == i,
            forall|j: int| 0 <= j < i ==> #[trigger] keys@[j]@ == normalized_album_name(names[j]),
        decreases album_names@.len() - i,
    {
        keys.push(normalize_album_name(album_names[i].as_str()));
        i = i + 1;
    }
    let ghost key_views = keys@.map_values(|k: Vec<char>| k@);
    assert(key_views =~= normalized_all(names));
    let mut i: usize = 0;
    while i < keys.len()
        invariant
            i <= keys@.len(),
            keys@.len() == names.len(),
            audio_file_count > 0,
            names == album_names@.map_values(|name: String| name@),
            key_views == keys@.map_values(|k: Vec<char>| k@),
            key_views == normalized_all(names),
            forall|j: int| 0 <= j < i ==> {
                let key = normalized_album_name(#[trigger] names[j]);
                !(key.len() > 0 && count_normalized(names, key) * 2 > audio_file_count && similar_enough(
                    similarity(directory_name@, key),
                ))
            },
        decreases keys@.len() - i,
    {
        let key = &keys[i];
        assert(key_views[i as int] == keys@[i as int]@);
        assert(key@ == normalized_album_name(names[i as int]));
        if key.len() > 0 {
            let count = count_key(&keys, key);
            if count > audio_file_count / 2 {
                let key_text = crate::text::string_of(key);
                let (matching, total) = album_name_similarity(directory_name, key_text.as_str());
                if matching as u128 * 10 >= total as u128 * 7 {
                    assert(key_text@ == normalized_album_name(names[i as int]));
                    assert(count_normalized(names, key@) * 2 > audio_file_count);
                    assert(similar_enough(similarity(directory_name@, key@)));
                    return true;
                }
            }
        }
        i = i + 1;
    }
    false
}


/// Whether the character `x` comes before `y` in path order: the separator before
/// every other character, the others by code point.
pub open spec fn path_char_lt(x: char, y: char) -> bool {
    if x == '/' {
        y != '/'
    } else if y == '/' {
        false
    } else {
        x < y
    }
}

/// Whether the path `a` comes before or equals `b` in std's component order:
/// character by character, with the separator before every other character, so
/// that a component sorts before any longer name it begins.
pub open spec fn chars_le(a: Seq<char>, b: Seq<char>) -> bool
    decreases a.len(),
{
    if a.len() == 0 {
        true
    } else if b.len() == 0 {
        false
    } else if a[0] != b[0] {
        path_char_lt(a[0], b[0])
    } else {
        chars_le(a.drop_first(), b.drop_first())
    }
}

proof fn lemma_chars_le_total(a: Seq<char>, b: Seq<char>)
    ensures
        chars_le(a, b) || chars_le(b, a),
    decreases a.len(),
{
    if a.len() > 0 && b.len() > 0 && a[0] == b[0] {
        lemma_chars_le_total(a.drop_first(), b.drop_first());
    }
}

proof fn lemma_chars_le_transitive(a: Seq<char>, b: Seq<char>, c: Seq<char>)
    requires
        chars_le(a, b),
        chars_le(b, c),
    ensures
        chars_le(a, c),
    decreases a.len(),
{
    if a.len() > 0 && b.len() > 0 && c.len() > 0 && a[0] == b[0] && b[0] == c[0] {
        lemma_chars_le_transitive(a.drop_first(), b.drop_first(), c.drop_first());
    }
}

fn chars_before(x: &[char], y: &[char]) -> (r: bool)
    ensures
        r == chars_le(x@, y@),
{
    let mut i: usize = 0;
    assert(x@.skip(0) =~= x@);
    assert(y@.skip(0) =~= y@);
    while i < x.len() && i < y.len() && x[i] == y[i]
        invariant
            i <= x@.len(),
            i <= y@.len(),
            chars_le(x@, y@) == chars_le(x@.skip(i as int), y@.skip(i as int)),
        decreases x@.len() - i,
    {
        assert(x@.skip(i as int).drop_first() =~= x@.skip(i + 1));
        assert(y@.skip(i as int).drop_first() =~= y@.skip(i + 1));
        i = i + 1;
    }
    if i == x.len() {
        true
    } else if i == y.len() {
        false
    } else {
        assert(x@.skip(i as int)[0] == x@[i as int]);
        assert(y@.skip(i as int)[0] == y@[i as int]);
        char_before(x[i], y[i])
    }
}

proof fn lemma_chars_le_antisymmetric(a: Seq<char>, b: Seq<char>)
    requires
        chars_le(a, b),
        chars_le(b, a),
    ensures
        a == b,
    decreases a.len(),
{
    if a.len() > 0 && b.len() > 0 {
        lemma_chars_le_antisymmetric(a.drop_first(), b.drop_first());
        assert(a =~= seq![a[0]] + a.drop_first());
        assert(b =~= seq![b[0]] + b.drop_first());
    } else {
        assert(a =~= b);
    }
}

/// Whether the path `a` comes before or equals `b` in the tree's order: by
/// [`chars_le`] on their lowercase, so that case is ignored; paths that differ
/// only in case by [`chars_le`] on the paths themselves.
pub open spec fn path_le(a: Seq<char>, b: Seq<char>) -> bool {
    let la = lowercase_text(a);
    let lb = lowercase_text(b);
    if la == lb {
        chars_le(a, b)
    } else {
        chars_le(la, lb)
    }
}

proof fn lemma_path_le_total(a: Seq<char>, b: Seq<char>)
    ensures
        path_le(a, b) || path_le(b, a),
{
    lemma_chars_le_total(a, b);
    lemma_chars_le_total(lowercase_text(a), lowercase_text(b));
}

proof fn lemma_path_le_transitive(a: Seq<char>, b: Seq<char>, c: Seq<char>)
    requires
        path_le(a, b),
        path_le(b, c),
    ensures
        path_le(a, c),
{
    let la = lowercase_text(a);
    let lb = lowercase_text(b);
    let lc = lowercase_text(c);
    if la == lb && lb == lc {
        lemma_chars_le_transitive(a, b, c);
    } else if la != lb && lb != lc {
        lemma_chars_le_transitive(la, lb, lc);
        if la == lc {
            lemma_chars_le_antisymmetric(la, lb);
        }
    }
}

fn text_le(a: &str, b: &str) -> (r: bool)
    ensures
        r == path_le(a@, b@),
{
    let x = chars_of(a);
    let y = chars_of(b);
    let lx = lowercased(&x);
    let ly = lowercased(&y);
    if chars_equal(&lx, &ly) {
        chars_before(&x, &y)
    } else {
        chars_before(&lx, &ly)
    }
}

fn char_before(x: char, y: char) -> (r: bool)
    ensures
        r == path_char_lt(x, y),
{
    if x == '/' {
        y != '/'
    } else if y == '/' {
        false
    } else {
        x < y
    }
}

/// The order of the children of a directory: subdirectories before files, and by
/// path ignoring case (in [`path_le`] order) within each kind.
pub open spec fn node_le(a: NodeView, b: NodeView) -> bool {
    ||| a is Directory && !(b is Directory)
    ||| (a is Directory) == (b is Directory) && path_le(a.path(), b.path())
}

/// Whether nodes are in [`node_le`] order.
pub open spec fn sorted_nodes(nodes: Seq<NodeView>) -> bool {
    forall|i: int, j: int| 0 <= i < j < nodes.len() ==> node_le(#[trigger] nodes[i], #[trigger] nodes[j])
}

proof fn lemma_node_le_total(a: NodeView, b: NodeView)
    ensures
        node_le(a, b) || node_le(b, a),
{
    lemma_path_le_total(a.path(), b.path());
}

proof fn lemma_node_le_transitive(a: NodeView, b: NodeView, c: NodeView)
    requires
        node_le(a, b),
        node_le(b, c),
    ensures
        node_le(a, c),
{
    if (a is Directory) == (b is Directory) && (b is Directory) == (c is Directory) {
        lemma_path_le_transitive(a.path(), b.path(), c.path());
    }
}

fn node_before(a: &FileTreeNode, b: &FileTreeNode) -> (r: bool)
    ensures
        r == node_le(a@, b@),
{
    let a_dir = matches!(a, FileTreeNode::Directory { .. });
    let b_dir = matches!(b, FileTreeNode::Directory { .. });
    if a_dir && !b_dir {
        true
    } else if a_dir == b_dir {
        text_le(a.path(), b.path())
    } else {
        false
    }
}

proof fn lemma_forest_view_index(nodes: Seq<FileTreeNode>)
    ensures
        forest_view(nodes).len() == nodes.len(),
        forall|i: int| 0 <= i < nodes.len() ==> #[trigger] forest_view(nodes)[i] == nodes[i]@,
    decreases nodes.len(),
{
    if nodes.len() > 0 {
        lemma_forest_view_index(nodes.drop_last());
    }
}

/// `node` put into `sorted` before the first node that does not come before or
/// equal it in [`node_le`] order (at the end when there is none).
pub open spec fn insert_in_order(sorted: Seq<NodeView>, node: NodeView) -> Seq<NodeView>
    decreases sorted.len(),
{
    if sorted.len() == 0 {
        seq![node]
    } else if node_le(sorted[0], node) {
        seq![sorted[0]] + insert_in_order(sorted.drop_first(), node)
    } else {
        seq![node] + sorted
    }
}

/// The nodes in the tree's order: the last node alone, then each node before it,
/// from the back, put in by [`insert_in_order`]. It holds the same nodes, in
/// [`node_le`] order (see [`sort_children`]).
pub open spec fn tree_order(nodes: Seq<NodeView>) -> Seq<NodeView>
    decreases nodes.len(),
{
    if nodes.len() == 0 {
        Seq::empty()
    } else {
        insert_in_order(tree_order(nodes.drop_first()), nodes[0])
    }
}

proof fn lemma_insert_in_order_at(sorted: Seq<NodeView>, node: NodeView, p: int)
    requires
        0 <= p <= sorted.len(),
        forall|k: int| 0 <= k < p ==> node_le(#[trigger] sorted[k], node),
        p < sorted.len() ==> !node_le(sorted[p], node),
    ensures
        insert_in_order(sorted, node) == sorted.insert(p, node),
    decreases sorted.len(),
{
    if sorted.len() == 0 {
        assert(sorted.insert(p, node) =~= seq![node]);
    } else if p == 0 {
        assert(sorted.insert(0, node) =~= seq![node] + sorted);
    } else {
        let rest = sorted.drop_first();
        assert forall|k: int| 0 <= k < p - 1 implies node_le(#[trigger] rest[k], node) by {
            assert(rest[k] == sorted[k + 1]);
        }
        lemma_insert_in_order_at(rest, node, p - 1);
        assert(sorted.insert(p, node) =~= seq![sorted[0]] + rest.insert(p - 1, node));
    }
}

/// The children of a directory in [`node_le`] order.
pub fn sort_children(children: Vec<FileTreeNode>) -> (r: Vec<FileTreeNode>)
    ensures
        forest_view(r@) == tree_order(forest_view(children@)),
        forest_view(r@).to_multiset() == forest_view(children@).to_multiset(),
        sorted_nodes(forest_view(r@)),
{
    let ghost original = forest_view(children@);
    let mut rest = children;
    let mut sorted: Vec<FileTreeNode> = Vec::new();
    proof {
        broadcast use vstd::seq_lib::group_to_multiset_ensures;
        assert(forest_view(sorted@) =~= Seq::<NodeView>::empty());
    }
    proof {
        lemma_forest_view_index(children@);
    }
    assert(original.skip(original.len() as int) =~= Seq::<NodeView>::empty());
    while rest.len() > 0
        invariant
            forest_view(sorted@).to_multiset().add(forest_view(rest@).to_multiset()) == original.to_multiset(),
            sorted_nodes(forest_view(sorted@)),
            rest@.len() <= original.len(),
            original == forest_view(children@),
            forall|k: int| 0 <= k < rest@.len() ==> #[trigger] rest@[k]@ == original[k],
            forest_view(sorted@) == tree_order(original.skip(rest@.len() as int)),
        decreases rest@.len(),
    {
        let ghost before_rest = rest@;
        let ghost before_sorted = sorted@;
        let node = rest.pop().unwrap();
        proof {
            assert(before_rest.drop_last() == rest@);
            vstd::seq_lib::to_multiset_build(forest_view(rest@), node@);
            lemma_forest_view_index(sorted@);
        }
        let mut p: usize = 0;
        while p < sorted.len() && node_before(&sorted[p], &node)
            invariant
                p <= sorted@.len(),
                sorted@ == before_sorted,
                forall|k: int| 0 <= k < p ==> node_le(#[trigger] sorted@[k]@, node@),
            decreases sorted@.len() - p,
        {
            p = p + 1;
        }
        proof {
            lemma_forest_view_index(sorted@);
            if p < sorted@.len() {
                lemma_node_le_total(sorted@[p as int]@, node@);
            }
        }
        sorted.insert(p, node);
        proof {
            lemma_forest_view_index(sorted@);
            lemma_forest_view_index(before_sorted);
            let old_view = forest_view(before_sorted);
            let new_view = forest_view(sorted@);
            assert(new_view =~= old_view.insert(p as int, node@));
            vstd::seq_lib::to_multiset_insert(old_view, p as int, node@);
            lemma_insert_in_order_at(old_view, node@, p as int);
            let k = rest@.len() as int;
            assert(node@ == original[k]);
            assert(original.skip(k).drop_first() =~= original.skip(k + 1));
            assert(original.skip(k)[0] == original[k]);
            assert forall|i: int, j: int| 0 <= i < j < new_view.len() implies node_le(
                #[trigger] new_view[i],
                #[trigger] new_view[j],
            ) by {
                if i < p && j == p {
                } else if i == p && j > p {
                    if j - 1 > p {
                        assert(node_le(old_view[p as int], old_view[j - 1]));
                        lemma_node_le_transitive(node@, old_view[p as int], old_view[j - 1]);
                    }
                } else if i < p && j > p {
                    assert(node_le(old_view[i], old_view[j - 1]));
                } else if j < p {
                    assert(node_le(old_view[i], old_view[j]));
                } else {
                    assert(node_le(old_view[i - 1], old_view[j - 1]));
                }
            }
            assert(forest_view(before_rest) == forest_view(rest@).push(node@));
        }
    }
    proof {
        assert(original.skip(0) =~= original);
        assert(forest_view(rest@) =~= Seq::<NodeView>::empty());
        assert(forest_view(rest@).to_multiset() =~= vstd::multiset::Multiset::empty());
    }
    sorted
}

/// Whether a path names a file whose extension is a supported audio format.
pub open spec fn supported_audio_path(path: Seq<char>) -> bool {
    match path_extension(path) {
        Some(ext) => supported_extension(ext),
        None => false,
    }
}

/// Whether a tree has the shape that scanning gives, at every level: each audio
/// file has a supported extension, and each directory has at least one child, its
/// children in [`node_le`] order (subdirectories first), no cover unless it is an
/// album, and children of the same shape. So every directory holds an audio file
/// somewhere below it.
pub open spec fn scanned_tree(node: NodeView) -> bool
    decreases node,
{
    match node {
        NodeView::Directory { children, is_album, album_cover, .. } => {
            &&& children.len() > 0
            &&& sorted_nodes(children)
            &&& !is_album ==> album_cover is None
            &&& forall|i: int| 0 <= i < children.len() ==> scanned_tree(#[trigger] children[i])
        },
        NodeView::AudioFile { path, .. } => supported_audio_path(path),
    }
}

/// A directory made of children of the scanned shape, collapsed as
/// [`collapse`] does, has the scanned shape.
proof fn lemma_collapse_scanned(
    name: Seq<char>,
    path: Seq<char>,
    children: Seq<NodeView>,
    is_album: bool,
    album_cover: Option<Seq<u8>>,
)
    requires
        children.len() > 0,
        sorted_nodes(children),
        !is_album ==> album_cover is None,
        forall|i: int| 0 <= i < children.len() ==> scanned_tree(#[trigger] children[i]),
    ensures
        scanned_tree(collapse(name, path, children, is_album, album_cover)),
    decreases children,
{
    if children.len() == 1 && children[0] is Directory {
        let child = children[0];
        assert(scanned_tree(child));
        lemma_collapse_scanned(
            name + seq!['/'] + child->Directory_name,
            child->Directory_path,
            child->Directory_children,
            child->Directory_is_album,
            child->Directory_album_cover,
        );
    }
}

/// Whether paths are in [`chars_le`] order: by character with the separator
/// first, which is std's order of paths by component for paths written without
/// repeated or trailing separators or `.` pieces, as the tree's paths are.
pub open spec fn sorted_paths(paths: Seq<Seq<char>>) -> bool {
    forall|i: int, j: int| 0 <= i < j < paths.len() ==> chars_le(#[trigger] paths[i], #[trigger] paths[j])
}

/// The paths in [`sorted_paths`] order: the same paths, each as often as
/// before.
pub fn sort_paths(paths: Vec<String>) -> (r: Vec<String>)
    ensures
        string_views(r@).to_multiset() == string_views(paths@).to_multiset(),
        sorted_paths(string_views(r@)),
{
    let ghost original = string_views(paths@);
    let mut rest = paths;
    let mut sorted: Vec<String> = Vec::new();
    proof {
        broadcast use vstd::seq_lib::group_to_multiset_ensures;
        assert(string_views(sorted@) =~= Seq::<Seq<char>>::empty());
    }
    while rest.len() > 0
        invariant
            string_views(sorted@).to_multiset().add(string_views(rest@).to_multiset()) == original.to_multiset(),
            sorted_paths(string_views(sorted@)),
        decreases rest@.len(),
    {
        let ghost before_rest = rest@;
        let ghost before_sorted = sorted@;
        let path = rest.pop().unwrap();
        proof {
            assert(before_rest.drop_last() == rest@);
            assert(string_views(before_rest) =~= string_views(rest@).push(path@));
            vstd::seq_lib::to_multiset_build(string_views(rest@), path@);
        }
        let x = chars_of(path.as_str());
        let mut p: usize = 0;
        while p < sorted.len() && chars_before(&chars_of(sorted[p].as_str()), &x)
            invariant
                p <= sorted@.len(),
                sorted@ == before_sorted,
                x@ == path@,
                forall|k: int| 0 <= k < p ==> chars_le(#[trigger] sorted@[k]@, path@),
            decreases sorted@.len() - p,
        {
            p = p + 1;
        }
        proof {
            if p < sorted@.len() {
                lemma_chars_le_total(sorted@[p as int]@, path@);
            }
        }
        sorted.insert(p, path);
        proof {
            let old_view = string_views(before_sorted);
            let new_view = string_views(sorted@);
            assert(new_view =~= old_view.insert(p as int, path@));
            vstd::seq_lib::to_multiset_insert(old_view, p as int, path@);
            assert forall|i: int, j: int| 0 <= i < j < new_view.len() implies chars_le(
                #[trigger] new_view[i],
                #[trigger] new_view[j],
            ) by {
                if i < p && j == p {
                    assert(new_view[i] == before_sorted[i]@);
                } else if i == p && j > p {
                    if j - 1 > p {
                        assert(chars_le(old_view[p as int], old_view[j - 1]));
                        lemma_chars_le_transitive(path@, old_view[p as int], old_view[j - 1]);
                    }
                } else if i < p && j > p {
                    assert(chars_le(old_view[i], old_view[j - 1]));
                } else if j < p {
                    assert(chars_le(old_view[i], old_view[j]));
                } else {
                    assert(chars_le(old_view[i - 1], old_view[j - 1]));
                }
            }
        }
    }
    proof {
        assert(string_views(rest@) =~= Seq::<Seq<char>>::empty());
        assert(string_views(rest@).to_multiset() =~= vstd::multiset::Multiset::empty());
    }
    sorted
}

/// The first cover among album tags, in order.
pub open spec fn first_cover(covers: Seq<Option<Seq<u8>>>) -> Option<Seq<u8>>
    decreases covers.len(),
{
    if covers.len() == 0 {
        None
    } else if covers[0] is Some {
        covers[0]
    } else {
        first_cover(covers.drop_first())
    }
}

/// The album names of album tags.
pub open spec fn tag_albums(tags: Seq<(String, Option<Vec<u8>>)>) -> Seq<Seq<char>> {
    tags.map_values(|tag: (String, Option<Vec<u8>>)| tag.0@)
}

/// The covers of album tags.
pub open spec fn tag_covers(tags: Seq<(String, Option<Vec<u8>>)>) -> Seq<Option<Seq<u8>>> {
    tags.map_values(|tag: (String, Option<Vec<u8>>)| match tag.1 {
        Some(bytes) => Some(bytes@),
        None => None,
    })
}

/// The node of a scanned directory, from the nodes of its entries that hold audio,
/// the number of audio files directly inside it, and the album tags (album name
/// and cover) read from those files, in order. A directory without such entries
/// has no node. Otherwise its children are put in [`tree_order`], it is an album
/// when [`is_album`] says so of its name, and an album takes the first cover found.
pub fn directory_node(
    path: String,
    children: Vec<FileTreeNode>,
    direct_audio_count: usize,
    album_tags: &[(String, Option<Vec<u8>>)],
) -> (r: Option<FileTreeNode>)
    ensures
        children@.len() == 0 <==> r is None,
        r matches Some(node) ==> {
            let album = is_album(
                display_name_of(path@),
                direct_audio_count as nat,
                tag_albums(album_tags@),
            );
            node@ == collapse(
                display_name_of(path@),
                path@,
                tree_order(forest_view(children@)),
                album,
                if album { first_cover(tag_covers(album_tags@)) } else { None },
            )
        },
        (forall|i: int| 0 <= i < children@.len() ==> scanned_tree(#[trigger] children@[i]@))
            ==> (r matches Some(node) ==> scanned_tree(node@)),
{
    if children.len() == 0 {
        return None;
    }
    let name = display_name(path.as_str());
    let mut albums: Vec<String> = Vec::new();
    let mut cover: Option<Vec<u8>> = None;
    let ghost covers = tag_covers(album_tags@);
    let mut i: usize = 0;
    assert(covers.skip(0) =~= covers);
    while i < album_tags.len()
        invariant
            i <= album_tags@.len(),
            covers == tag_covers(album_tags@),
            albums@.len() == i,
            forall|j: int| 0 <= j < i ==> #[trigger] albums@[j]@ == album_tags@[j].0@,
            first_cover(covers) == match cover {
                Some(bytes) => Some(bytes@),
                None => first_cover(covers.skip(i as int)),
            },
        decreases album_tags@.len() - i,
    {
        albums.push(album_tags[i].0.clone());
        let ghost rest = covers.skip(i as int);
        assert(rest.drop_first() =~= covers.skip(i + 1));
        assert(rest[0] == covers[i as int]);
        if cover.is_none() {
            if let Some(bytes) = &album_tags[i].1 {
                let copy = bytes.clone();
                assert(copy@ =~= bytes@);
                cover = Some(copy);
            }
        }
        i = i + 1;
    }
    assert(albums@.map_values(|name: String| name@) =~= tag_albums(album_tags@));
    let album = is_album_directory(name.as_str(), direct_audio_count, &albums);
    let album_cover = if album {
        match cover {
            Some(bytes) => Some(Arc::new(bytes)),
            None => {
                assert(covers.skip(album_tags@.len() as int).len() == 0);
                None
            },
        }
    } else {
        None
    };
    let ghost child_views = forest_view(children@);
    proof {
        lemma_forest_view_index(children@);
    }
    let sorted = sort_children(children);
    proof {
        let sorted_views = forest_view(sorted@);
        broadcast use vstd::seq_lib::group_to_multiset_ensures;
        assert(sorted_views.len() == child_views.len()) by {
            assert(sorted_views.to_multiset().len() == sorted_views.len());
            assert(child_views.to_multiset().len() == child_views.len());
        }
        if forall|i: int| 0 <= i < child_views.len() ==> scanned_tree(#[trigger] child_views[i]) {
            assert forall|i: int| 0 <= i < sorted_views.len() implies scanned_tree(
                #[trigger] sorted_views[i],
            ) by {
                assert(sorted_views.to_multiset().count(sorted_views[i]) > 0);
                assert(child_views.contains(sorted_views[i]));
            }
            lemma_collapse_scanned(
                display_name_of(path@),
                path@,
                sorted_views,
                album,
                cover_bytes(album_cover),
            );
        }
    }
    let node = FileTreeNode::directory_with_album_cover(path, sorted, album, album_cover);
    assert(sorted_nodes(forest_view(sorted@)));
    Some(node)
}

/// What a scan reads of the file system: a file by its path, or a readable
/// directory with its entries (in the order they were listed) and the album tags
/// (album name and cover) read from its supported audio files, in order.
pub enum Listing {
    File { path: String },
    Directory { path: String, entries: Vec<Listing>, album_tags: Vec<(String, Option<Vec<u8>>)> },
}

/// Whether a listing holds a supported audio file: a file with a supported
/// extension, or a directory with an entry that holds one.
pub open spec fn holds_audio(listing: Listing) -> bool
    decreases listing,
{
    match listing {
        Listing::File { path } => supported_audio_path(path@),
        Listing::Directory { entries, .. } => exists|i: int|
            0 <= i < entries@.len() && holds_audio(#[trigger] entries@[i]),
    }
}

/// The number of entries of a directory listing that are supported audio files.
pub open spec fn audio_file_count(entries: Seq<Listing>) -> nat
    decreases entries.len(),
{
    if entries.len() == 0 {
        0
    } else {
        audio_file_count(entries.drop_last()) + match entries.last() {
            Listing::File { path } => if supported_audio_path(path@) { 1nat } else { 0nat },
            _ => 0nat,
        }
    }
}

/// The node that a scan makes of a listing: a supported audio file is a leaf
/// named by its file name, another file nothing. A directory is nothing when none
/// of its entries gives a node; otherwise its children are its entries' nodes put
/// in [`tree_order`], it is an album when [`is_album`] says so of its name, the
/// number of its supported audio files and its album tags, an album has the first
/// cover among those tags, and a chain of single subdirectories is collapsed
/// ([`collapse`]).
pub open spec fn scanned_node(listing: Listing) -> Option<NodeView>
    decreases listing, match listing {
        Listing::Directory { entries, .. } => entries@.len() + 1int,
        _ => 0int,
    },
{
    match listing {
        Listing::File { path } => if supported_audio_path(path@) {
            Some(NodeView::AudioFile { name: display_name_of(path@), path: path@ })
        } else {
            None
        },
        Listing::Directory { path, entries, album_tags } => {
            let kids = entry_nodes(listing, entries@.len() as int);
            if kids.len() == 0 {
                None
            } else {
                let album = is_album(display_name_of(path@), audio_file_count(entries@), tag_albums(album_tags@));
                Some(
                    collapse(
                        display_name_of(path@),
                        path@,
                        tree_order(kids),
                        album,
                        if album { first_cover(tag_covers(album_tags@)) } else { None },
                    ),
                )
            }
        },
    }
}

/// The nodes that the first `k` entries of a directory listing give, in order.
pub open spec fn entry_nodes(listing: Listing, k: int) -> Seq<NodeView>
    decreases listing, if k > 0 { k } else { 0int },
{
    match listing {
        Listing::Directory { entries, .. } => if 0 < k <= entries@.len() {
            entry_nodes(listing, k - 1) + match scanned_node(entries@[k - 1]) {
                Some(node) => seq![node],
                None => Seq::empty(),
            }
        } else {
            Seq::empty()
        },
        _ => Seq::empty(),
    }
}

/// The tree of a listing, built as a scan builds it, level by level: the node
/// that [`scanned_node`] gives, made by [`directory_node`] from the trees of a
/// directory's entries, the number of its supported audio files and its album
/// tags. There is a tree exactly when the listing holds a supported audio file,
/// and the whole tree has the scanned shape ([`scanned_tree`]): every directory
/// non-empty, subdirectories before files, names in order ignoring case, a cover
/// only for an album, and every file a supported one.
pub fn tree_of(listing: &Listing) -> (r: Option<FileTreeNode>)
    ensures
        match scanned_node(*listing) {
            Some(node) => r matches Some(n) && n@ == node,
            None => r is None,
        },
        r is Some <==> holds_audio(*listing),
        r matches Some(node) ==> scanned_tree(node@),
    decreases listing,
{
    match listing {
        Listing::File { path } => {
            if is_supported_audio(path.as_str()) {
                let name = path.clone();
                assert(name@ == path@);
                let node = FileTreeNode::audio(name);
                Some(node)
            } else {
                None
            }
        },
        Listing::Directory { path, entries, album_tags } => {
            let mut children: Vec<FileTreeNode> = Vec::new();
            let mut count: usize = 0;
            let mut i: usize = 0;
            while i < entries.len()
                invariant
                    listing is Directory,
                    listing->Directory_entries == *entries,
                    i <= entries@.len(),
                    count <= i,
                    count == audio_file_count(entries@.take(i as int)),
                    forall|j: int| 0 <= j < children@.len() ==> scanned_tree(#[trigger] children@[j]@),
                    children@.len() > 0 <==> exists|j: int| 0 <= j < i && holds_audio(#[trigger] entries@[j]),
                    forest_view(children@) == entry_nodes(*listing, i as int),
                decreases entries@.len() - i,
            {
                let entry = &entries[i];
                assert(decreases_to!(*listing => entries@[i as int]));
                let ghost before = children@;
                assert(entries@.take(i + 1).drop_last() =~= entries@.take(i as int));
                assert(entry_nodes(*listing, i + 1) == entry_nodes(*listing, i as int) + match scanned_node(
                    entries@[i as int],
                ) {
                    Some(node) => seq![node],
                    None => Seq::<NodeView>::empty(),
                });
                if let Listing::File { path: file } = entry {
                    if is_supported_audio(file.as_str()) {
                        count = count + 1;
                    }
                }
                match tree_of(entry) {
                    Some(node) => {
                        children.push(node);
                        assert(children@[children@.len() - 1] == node);
                        assert(children@.drop_last() =~= before);
                        assert forall|j: int| 0 <= j < children@.len() implies scanned_tree(
                            #[trigger] children@[j]@,
                        ) by {
                            if j < before.len() {
                                assert(children@[j] == before[j]);
                            }
                        }
                    },
                    None => {
                        assert(entry_nodes(*listing, i + 1) =~= entry_nodes(*listing, i as int));
                    },
                }
                i = i + 1;
            }
            assert(entries@.take(i as int) =~= entries@);
            let name = path.clone();
            assert(name@ == path@);
            directory_node(name, children, count, album_tags.as_slice())
        },
    }
}

} // verus!
