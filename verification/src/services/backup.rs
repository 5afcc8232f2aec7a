//! Where a backup of an audio file goes: under the music directory, in a hidden
//! directory, then a timestamped directory, then the file's path relative to the
//! music directory.

use vstd::prelude::*;

use crate::paths::{path_has_prefix, path_relative, strip_prefix};
use crate::text::{decimal, push_char, push_char_all, push_decimal};

verus! {

/// The path of `tail` under `base`, as std's `Path::join` builds it on Unix: an
/// absolute `tail` replaces `base`; otherwise `tail` follows `base`, with a
/// separator between them unless `base` is empty or already ends in one.
pub open spec fn path_joined(base: Seq<char>, tail: Seq<char>) -> Seq<char> {
    if tail.len() > 0 && tail[0] == '/' {
        tail
    } else if base.len() > 0 && base.last() != '/' {
        base + seq!['/'] + tail
    } else {
        base + tail
    }
}

/// The path of `tail` under `base` (see [`path_joined`]).
fn join(base: &str, tail: &str) -> (r: String)
    ensures
        r@ == path_joined(base@, tail@),
{
    let head = crate::text::chars_of(base);
    let rest = crate::text::chars_of(tail);
    if rest.len() > 0 && rest[0] == '/' {
        return crate::text::string_of(rest.as_slice());
    }
    let mut out = crate::text::string_of(head.as_slice());
    if head.len() > 0 && head[head.len() - 1] != '/' {
        push_char(&mut out, '/');
    }
    push_char_all(&mut out, tail);
    assert(out@ =~= path_joined(base@, tail@));
    out
}

/// The name of the hidden directory that holds the backups of a session.
pub open spec fn backup_directory_name() -> Seq<char> {
    seq!['.', 's', 'l', 'e', 'e', 'v', 'e', '-', 'b', 'a', 'c', 'k', 'u', 'p', 's']
}

fn backup_directory() -> (r: String)
    ensures
        r@ == backup_directory_name(),
{
    let mut name = String::new();
    let chars = ['.', 's', 'l', 'e', 'e', 'v', 'e', '-', 'b', 'a', 'c', 'k', 'u', 'p', 's'];
    let mut i: usize = 0;
    while i < 15
        invariant
            i <= 15,
            chars@ == backup_directory_name(),
            name@ == chars@.take(i as int),
        decreases 15 - i,
    {
        push_char(&mut name, chars[i]);
        i = i + 1;
        assert(name@ =~= chars@.take(i as int));
    }
    assert(chars@.take(15) =~= chars@);
    name
}

/// The hidden directory of a music directory's backups.
pub open spec fn backup_root_of(root: Seq<char>) -> Seq<char> {
    path_joined(root, backup_directory_name())
}

/// The hidden directory of a music directory's backups (`.sleeve-backups`).
pub fn backup_root(root: &str) -> (r: String)
    ensures
        r@ == backup_root_of(root@),
{
    let name = backup_directory();
    join(root, name.as_str())
}

/// Where the backup of `source` taken at `timestamp` goes: the file's path below
/// `root`, under the timestamp's directory in the backup directory; `None` when
/// `source` is not below `root`.
pub fn backup_destination(root: &str, source: &str, timestamp: &str) -> (r: Option<String>)
    ensures
        match r {
            Some(destination) => path_has_prefix(source@, root@) && destination@ == path_joined(
                path_joined(backup_root_of(root@), timestamp@),
                path_relative(source@, root@),
            ),
            None => !path_has_prefix(source@, root@),
        },
{
    let relative = match strip_prefix(source, root) {
        Some(relative) => relative,
        None => return None,
    };
    let directory = backup_root(root);
    let stamped = join(directory.as_str(), timestamp);
    Some(join(stamped.as_str(), relative.as_str()))
}

/// The name of a backup directory: the timestamp itself, or, when that is taken,
/// the timestamp, a hyphen and the attempt's number in at least two digits.
pub open spec fn timestamp_candidate_of(base: Seq<char>, suffix: nat) -> Seq<char> {
    if suffix == 0 {
        base
    } else if suffix < 10 {
        base + seq!['-', '0'] + decimal(suffix)
    } else {
        base + seq!['-'] + decimal(suffix)
    }
}

/// The name of the `suffix`-th backup directory tried for a timestamp (see
/// [`timestamp_candidate_of`]).
pub fn timestamp_candidate(base: &str, suffix: u64) -> (r: String)
    ensures
        r@ == timestamp_candidate_of(base@, suffix as nat),
{
    let mut out = String::new();
    push_char_all(&mut out, base);
    if suffix > 0 {
        push_char(&mut out, '-');
        if suffix < 10 {
            push_char(&mut out, '0');
        }
        push_decimal(&mut out, suffix);
    }
    assert(out@ =~= timestamp_candidate_of(base@, suffix as nat));
    out
}

} // verus!
