//! Paths are held as UTF-8 strings, split into components as std's `Path` splits
//! them on Unix; only the spelling of a path relative to another comes from std.

use vstd::prelude::*;

use crate::text::chars_of;

verus! {

/// The final component of a path, as std's `Path::file_name` gives it: the last
/// of [`path_components`] when it is a name, not the root, `.` or `..`.
pub open spec fn path_file_name(path: Seq<char>) -> Option<Seq<char>> {
    let components = path_components(path);
    if components.len() > 0 && components.last() != seq!['/'] && components.last() != seq!['.']
        && components.last() != seq!['.', '.'] {
        Some(components.last())
    } else {
        None
    }
}

/// Whether `base` names a chain of whole leading components of `path`, as std's
/// `Path::starts_with` answers: the components of `base` begin those of `path`.
pub open spec fn path_has_prefix(path: Seq<char>, base: Seq<char>) -> bool {
    let components = path_components(path);
    let leading = path_components(base);
    leading.len() <= components.len() && components.take(leading.len() as int) == leading
}

fn is_text(chars: &Vec<char>, text: &[char]) -> (r: bool)
    ensures
        r == (chars@ == text@),
{
    crate::text::chars_equal(chars.as_slice(), text)
}

/// The final component of `path`, if it has one (see [`path_file_name`]).
pub(crate) fn file_name(path: &str) -> (r: Option<String>)
    ensures
        match r {
            Some(name) => path_file_name(path@) == Some(name@),
            None => path_file_name(path@) is None,
        },
{
    let components = components_of(path);
    let n = components.len();
    if n == 0 {
        return None;
    }
    let last = &components[n - 1];
    assert(char_views(components@)[n - 1] == last@);
    let root = ['/'];
    let dot = ['.'];
    let dots = ['.', '.'];
    assert(root@ =~= seq!['/']);
    assert(dot@ =~= seq!['.']);
    assert(dots@ =~= seq!['.', '.']);
    if is_text(last, &root) || is_text(last, &dot) || is_text(last, &dots) {
        None
    } else {
        Some(crate::text::string_of(last.as_slice()))
    }
}

/// Whether `base` is a prefix of `path` made of whole components (see
/// [`path_has_prefix`]).
pub(crate) fn starts_with(path: &str, base: &str) -> (r: bool)
    ensures
        r == path_has_prefix(path@, base@),
{
    let components = components_of(path);
    let leading = components_of(base);
    let ghost cv = char_views(components@);
    let ghost lv = char_views(leading@);
    if leading.len() > components.len() {
        return false;
    }
    let mut i: usize = 0;
    while i < leading.len()
        invariant
            i <= leading@.len(),
            leading@.len() <= components@.len(),
            cv == char_views(components@),
            lv == char_views(leading@),
            cv == path_components(path@),
            lv == path_components(base@),
            forall|j: int| 0 <= j < i ==> cv[j] == lv[j],
        decreases leading@.len() - i,
    {
        assert(cv[i as int] == components@[i as int]@);
        assert(lv[i as int] == leading@[i as int]@);
        if !crate::text::chars_equal(components[i].as_slice(), leading[i].as_slice()) {
            assert(cv.take(lv.len() as int)[i as int] != lv[i as int]);
            return false;
        }
        i = i + 1;
    }
    assert(cv.take(lv.len() as int) =~= lv);
    true
}

/// The path of `path` relative to `base`, as std's `Path::strip_prefix` gives it.
pub uninterp spec fn path_relative(path: Seq<char>, base: Seq<char>) -> Seq<char>;

/// std `Path::strip_prefix`: the path of `path` below `base`; `None` when `base`
/// is not made of leading components of `path` (std's `starts_with`).
#[verifier::external_body]
pub(crate) fn strip_prefix(path: &str, base: &str) -> (r: Option<String>)
    ensures
        match r {
            Some(relative) => path_has_prefix(path@, base@) && relative@ == path_relative(path@, base@),
            None => !path_has_prefix(path@, base@),
        },
{
    std::path::Path::new(path).strip_prefix(base).ok().map(
        |relative| relative.to_string_lossy().into_owned(),
    )
}

/// The path of a file as the editor shows it: relative to the music directory,
/// or the whole path when the file is not below it.
pub open spec fn shown_path_of(path: Seq<char>, root: Seq<char>) -> Seq<char> {
    if path_has_prefix(path, root) {
        path_relative(path, root)
    } else {
        path
    }
}

/// The path of a file relative to the music directory (see [`shown_path_of`]).
pub fn relative_path(path: &str, root: &str) -> (r: String)
    ensures
        r@ == shown_path_of(path@, root@),
{
    match strip_prefix(path, root) {
        Some(relative) => relative,
        None => path.to_owned(),
    }
}

/// The name shown for a path: its final component, or the whole path when it
/// has none.
pub open spec fn display_name_of(path: Seq<char>) -> Seq<char> {
    match path_file_name(path) {
        Some(name) => name,
        None => path,
    }
}

/// The name shown for a path: its final component, or the whole path when it
/// has none.
pub fn display_name(path: &str) -> (r: String)
    ensures
        r@ == display_name_of(path@),
{
    match file_name(path) {
        Some(name) => name,
        None => path.to_owned(),
    }
}

/// The index of the last `.` in `name`, if there is one.
pub open spec fn last_dot(name: Seq<char>) -> Option<int>
    decreases name.len(),
{
    if name.len() == 0 {
        None
    } else if name.last() == '.' {
        Some(name.len() - 1)
    } else {
        last_dot(name.drop_last())
    }
}

/// The extension of a file name, as std's `Path::extension` defines it: the text
/// after the final `.`, unless there is no `.` or the only one begins the name.
pub open spec fn name_extension(name: Seq<char>) -> Option<Seq<char>> {
    match last_dot(name) {
        Some(i) => if i == 0 { None } else { Some(name.skip(i + 1)) },
        None => None,
    }
}

/// The extension of a path: that of its final component.
pub open spec fn path_extension(path: Seq<char>) -> Option<Seq<char>> {
    match path_file_name(path) {
        Some(name) => name_extension(name),
        None => None,
    }
}

proof fn lemma_last_dot_bounds(name: Seq<char>)
    ensures
        last_dot(name) matches Some(i) ==> 0 <= i < name.len() && name[i] == '.',
        last_dot(name) matches Some(i) ==> forall|j: int| i < j < name.len() ==> name[j] != '.',
        last_dot(name) is None ==> forall|j: int| 0 <= j < name.len() ==> name[j] != '.',
    decreases name.len(),
{
    if name.len() > 0 && name.last() != '.' {
        lemma_last_dot_bounds(name.drop_last());
        assert forall|j: int| 0 <= j < name.len() - 1 implies name.drop_last()[j] == name[j] by {}
    }
}

/// The extension of a path (std `Path::extension`).
pub fn extension(path: &str) -> (r: Option<Vec<char>>)
    ensures
        match path_extension(path@) {
            Some(ext) => r matches Some(v) && v@ == ext,
            None => r is None,
        },
{
    let name = match file_name(path) {
        Some(name) => name,
        None => return None,
    };
    let chars = chars_of(name.as_str());
    let mut i: usize = chars.len();
    while i > 0
        invariant
            i <= chars@.len(),
            chars@ == name@,
            path_file_name(path@) == Some(name@),
            forall|j: int| i <= j < chars@.len() ==> chars@[j] != '.',
        decreases i,
    {
        if chars[i - 1] == '.' {
            proof {
                lemma_last_dot_bounds(chars@);
                lemma_last_dot_is_last(chars@, i - 1);
            }
            if i - 1 == 0 {
                return None;
            }
            let mut ext: Vec<char> = Vec::new();
            let mut k: usize = i;
            while k < chars.len()
                invariant
                    i <= k <= chars@.len(),
                    chars@ == name@,
                    path_file_name(path@) == Some(name@),
                    last_dot(chars@) == Some(i - 1),
                    ext@ == chars@.subrange(i as int, k as int),
                decreases chars@.len() - k,
            {
                ext.push(chars[k]);
                k = k + 1;
                assert(ext@ =~= chars@.subrange(i as int, k as int));
            }
            assert(ext@ =~= chars@.skip(i as int));
            return Some(ext);
        }
        i = i - 1;
    }
    proof {
        lemma_last_dot_bounds(chars@);
        if last_dot(chars@) is Some {
            let j = last_dot(chars@)->0;
            assert(chars@[j] == '.');
        }
    }
    None
}

proof fn lemma_last_dot_is_last(name: Seq<char>, i: int)
    requires
        0 <= i < name.len(),
        name[i] == '.',
        forall|j: int| i < j < name.len() ==> name[j] != '.',
    ensures
        last_dot(name) == Some(i),
    decreases name.len(),
{
    if name.last() != '.' {
        assert forall|j: int| i < j < name.drop_last().len() implies name.drop_last()[j] != '.' by {}
        lemma_last_dot_is_last(name.drop_last(), i);
    }
}

/// The pieces of a path between its separators, in order: `a//b/` has the pieces
/// `a`, ``, `b` and ``.
pub open spec fn path_pieces(path: Seq<char>) -> Seq<Seq<char>>
    decreases path.len(),
{
    if path.len() == 0 {
        seq![Seq::<char>::empty()]
    } else {
        let rest = path_pieces(path.drop_last());
        if path.last() == '/' {
            rest.push(Seq::empty())
        } else {
            rest.update(rest.len() - 1, rest.last().push(path.last()))
        }
    }
}

/// Whether a piece after the first names a component: it is not empty and not `.`.
pub open spec fn is_named_piece(piece: Seq<char>) -> bool {
    piece.len() > 0 && piece != seq!['.']
}

/// The components of a path as std's `Path::components` gives them on Unix: the
/// root (written `/`) when the path begins with a separator, else its first piece
/// when that is not empty (a leading `.` stays); then the other pieces that name
/// something, so that repeated and trailing separators and inner `.` are passed
/// over.
pub open spec fn path_components(path: Seq<char>) -> Seq<Seq<char>> {
    let pieces = path_pieces(path);
    let lead: Seq<Seq<char>> = if path.len() > 0 && path[0] == '/' {
        seq![seq!['/']]
    } else if pieces[0].len() > 0 {
        seq![pieces[0]]
    } else {
        Seq::empty()
    };
    lead + pieces.drop_first().filter(|piece: Seq<char>| is_named_piece(piece))
}

/// Whether two paths name the same path, as std's `==` on `Path` answers: they
/// have the same components.
pub open spec fn same_path(a: Seq<char>, b: Seq<char>) -> bool {
    path_components(a) == path_components(b)
}

/// The character sequences of vectors of characters.
pub open spec fn char_views(items: Seq<Vec<char>>) -> Seq<Seq<char>> {
    items.map_values(|item: Vec<char>| item@)
}

proof fn lemma_path_pieces_not_empty(path: Seq<char>)
    ensures
        path_pieces(path).len() >= 1,
    decreases path.len(),
{
    if path.len() > 0 {
        lemma_path_pieces_not_empty(path.drop_last());
    }
}

fn pieces_of(path: &[char]) -> (r: Vec<Vec<char>>)
    ensures
        char_views(r@) == path_pieces(path@),
{
    let mut pieces: Vec<Vec<char>> = Vec::new();
    pieces.push(Vec::new());
    let mut i: usize = 0;
    assert(char_views(pieces@) =~= path_pieces(path@.take(0)));
    while i < path.len()
        invariant
            i <= path@.len(),
            pieces@.len() >= 1,
            char_views(pieces@) == path_pieces(path@.take(i as int)),
        decreases path@.len() - i,
    {
        let ghost before = char_views(pieces@);
        assert(path@.take(i + 1).drop_last() =~= path@.take(i as int));
        assert(path@.take(i + 1).last() == path@[i as int]);
        if path[i] == '/' {
            pieces.push(Vec::new());
            assert(char_views(pieces@) =~= before.push(Seq::empty()));
        } else {
            let mut last = pieces.pop().unwrap();
            last.push(path[i]);
            pieces.push(last);
            assert(char_views(pieces@) =~= before.update(before.len() - 1, before.last().push(path@[i as int])));
        }
        i = i + 1;
    }
    assert(path@.take(i as int) =~= path@);
    pieces
}

/// The components of a path (see [`path_components`]).
pub fn components_of(path: &str) -> (r: Vec<Vec<char>>)
    ensures
        char_views(r@) == path_components(path@),
{
    let chars = chars_of(path);
    let pieces = pieces_of(&chars);
    proof {
        lemma_path_pieces_not_empty(path@);
    }
    let ghost named = |piece: Seq<char>| is_named_piece(piece);
    let mut out: Vec<Vec<char>> = Vec::new();
    if chars.len() > 0 && chars[0] == '/' {
        let mut root: Vec<char> = Vec::new();
        root.push('/');
        assert(root@ =~= seq!['/']);
        out.push(root);
    } else if pieces[0].len() > 0 {
        let first = pieces[0].clone();
        assert(first@ =~= pieces@[0]@);
        out.push(first);
    }
    let ghost lead = char_views(out@);
    let ghost rest = path_pieces(path@).drop_first();
    assert(char_views(pieces@)[0] == pieces@[0]@);
    assert(lead =~= (if path@.len() > 0 && path@[0] == '/' {
        seq![seq!['/']]
    } else if path_pieces(path@)[0].len() > 0 {
        seq![path_pieces(path@)[0]]
    } else {
        Seq::<Seq<char>>::empty()
    }));
    assert(rest.take(0).filter(named) =~= Seq::<Seq<char>>::empty()) by {
        reveal_with_fuel(Seq::<_>::filter, 1);
    }
    assert(char_views(out@) =~= lead + rest.take(0).filter(named));
    let mut k: usize = 1;
    while k < pieces.len()
        invariant
            1 <= k <= pieces@.len(),
            char_views(pieces@) == path_pieces(path@),
            rest == path_pieces(path@).drop_first(),
            named == (|piece: Seq<char>| is_named_piece(piece)),
            char_views(out@) == lead + rest.take(k - 1).filter(named),
        decreases pieces@.len() - k,
    {
        let ghost before = char_views(out@);
        assert(rest.take(k as int).drop_last() =~= rest.take(k - 1));
        assert(rest.take(k as int).last() == pieces@[k as int]@);
        reveal_with_fuel(Seq::<_>::filter, 1);
        let piece = &pieces[k];
        let dot = piece.len() == 1 && piece[0] == '.';
        assert(dot <==> piece@ == seq!['.']) by {
            if piece@.len() == 1 && piece@[0] == '.' {
                assert(piece@ =~= seq!['.']);
            }
        }
        if piece.len() > 0 && !dot {
            let copy = piece.clone();
            assert(copy@ =~= piece@);
            out.push(copy);
            assert(char_views(out@) =~= before.push(piece@));
        } else {
            assert(char_views(out@) =~= before);
        }
        k = k + 1;
    }
    assert(rest.take(k - 1) =~= rest);
    out
}

fn char_lists_equal(a: &Vec<Vec<char>>, b: &Vec<Vec<char>>) -> (r: bool)
    ensures
        r == (char_views(a@) == char_views(b@)),
{
    if a.len() != b.len() {
        assert(char_views(a@).len() != char_views(b@).len());
        return false;
    }
    let mut i: usize = 0;
    while i < a.len()
        invariant
            a@.len() == b@.len(),
            i <= a@.len(),
            forall|j: int| 0 <= j < i ==> a@[j]@ == b@[j]@,
        decreases a@.len() - i,
    {
        if !crate::text::chars_equal(a[i].as_slice(), b[i].as_slice()) {
            assert(char_views(a@)[i as int] != char_views(b@)[i as int]);
            return false;
        }
        i = i + 1;
    }
    assert(char_views(a@) =~= char_views(b@));
    true
}

/// Whether two paths name the same path (see [`same_path`]).
pub fn paths_equal(a: &str, b: &str) -> (r: bool)
    ensures
        r == same_path(a@, b@),
{
    let x = components_of(a);
    let y = components_of(b);
    char_lists_equal(&x, &y)
}

} // verus!
