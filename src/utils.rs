//! Text helpers: the extension of a path and the comma-separated
//! extension filter.

use vstd::prelude::*;

verus! {

/// What `str::to_lowercase` returns for the characters `s`.
pub uninterp spec fn lower_of(s: Seq<char>) -> Seq<char>;

/// What `str::trim` returns for the characters `s`.
pub uninterp spec fn trim_of(s: Seq<char>) -> Seq<char>;

/// Relies on `str::to_lowercase`: the lowercase form of a string depends on
/// its characters alone.
#[verifier::external_body]
fn lowercase(s: &str) -> (r: String)
    ensures
        r@ == lower_of(s@),
{
    s.to_lowercase()
}

/// Relies on `str::trim`: the string without leading and trailing
/// whitespace depends on its characters alone.
#[verifier::external_body]
fn trim(s: &str) -> (r: &str)
    ensures
        r@ == trim_of(s@),
{
    s.trim()
}

/// The position of the first `c` in `s`, or -1.
pub open spec fn first_index_of(s: Seq<char>, c: char) -> int
    decreases s.len(),
{
    if s.len() == 0 {
        -1
    } else if s[0] == c {
        0
    } else {
        let r = first_index_of(s.drop_first(), c);
        if r < 0 {
            -1
        } else {
            r + 1
        }
    }
}

/// The position of the last `c` in `s`, or -1.
pub open spec fn last_index_of(s: Seq<char>, c: char) -> int
    decreases s.len(),
{
    if s.len() == 0 {
        -1
    } else if s.last() == c {
        s.len() - 1
    } else {
        last_index_of(s.drop_last(), c)
    }
}

/// The pieces of `s` between the separators `sep`; a string without one is a
/// single piece.
pub open spec fn split_on(s: Seq<char>, sep: char) -> Seq<Seq<char>>
    decreases s.len(),
{
    let i = first_index_of(s, sep);
    if i < 0 || i >= s.len() {
        seq![s]
    } else {
        seq![s.subrange(0, i)] + split_on(s.subrange(i + 1, s.len() as int), sep)
    }
}

/// The last component of a path: what follows its last `/`.
pub open spec fn file_name_of(p: Seq<char>) -> Seq<char> {
    p.subrange(last_index_of(p, '/') + 1, p.len() as int)
}

/// The extension of a path: what follows the last `.` of its file name,
/// where that `.` is not the name's first character. The name `..` has none.
pub open spec fn extension_of(p: Seq<char>) -> Option<Seq<char>> {
    let name = file_name_of(p);
    let dot = last_index_of(name, '.');
    if dot <= 0 || name == seq!['.', '.'] {
        None
    } else {
        Some(name.subrange(dot + 1, name.len() as int))
    }
}

/// Whether the comma-separated list `exts` holds `ext`, each item trimmed and
/// compared without regard to case.
pub open spec fn in_ext_list(ext: Seq<char>, exts: Seq<char>) -> bool {
    exists|i: int|
        0 <= i < split_on(exts, ',').len() && lower_of(trim_of(#[trigger] split_on(exts, ',')[i]))
            == lower_of(ext)
}

/// An empty filter accepts every path; otherwise the path needs an extension
/// that the list holds.
pub open spec fn matches_extension_spec(path: Seq<char>, exts: Seq<char>) -> bool {
    exts.len() == 0 || match extension_of(path) {
        Some(e) => in_ext_list(e, exts),
        None => false,
    }
}

proof fn lemma_first_index(s: Seq<char>, c: char, i: int)
    requires
        i == -1 || (0 <= i < s.len() && s[i] == c),
        forall|j: int| 0 <= j < s.len() && (i == -1 || j < i) ==> s[j] != c,
    ensures
        first_index_of(s, c) == i,
    decreases s.len(),
{
    if s.len() > 0 && s[0] != c {
        let i2 = if i == -1 {
            -1
        } else {
            i - 1
        };
        assert forall|j: int|
            0 <= j < s.drop_first().len() && (i2 == -1 || j < i2) implies s.drop_first()[j] != c by {
            assert(s.drop_first()[j] == s[j + 1]);
        }
        lemma_first_index(s.drop_first(), c, i2);
    }
}

proof fn lemma_last_index(s: Seq<char>, c: char, i: int)
    requires
        i == -1 || (0 <= i < s.len() && s[i] == c),
        forall|j: int| 0 <= j < s.len() && j > i ==> s[j] != c,
    ensures
        last_index_of(s, c) == i,
    decreases s.len(),
{
    if s.len() > 0 && s.last() != c {
        lemma_last_index(s.drop_last(), c, i);
    }
}

proof fn lemma_first_index_bounds(s: Seq<char>, c: char)
    ensures
        -1 <= first_index_of(s, c) < s.len(),
        first_index_of(s, c) >= 0 ==> s[first_index_of(s, c)] == c,
        forall|j: int| 0 <= j < s.len() && (first_index_of(s, c) == -1 || j < first_index_of(s, c)) ==> s[j] != c,
    decreases s.len(),
{
    if s.len() > 0 && s[0] != c {
        lemma_first_index_bounds(s.drop_first(), c);
        assert forall|j: int| 0 <= j < s.len() && (first_index_of(s, c) == -1 || j < first_index_of(s, c)) implies s[j] != c by {
            if j > 0 {
                assert(s[j] == s.drop_first()[j - 1]);
            }
        }
    }
}

proof fn lemma_last_index_bounds(s: Seq<char>, c: char)
    ensures
        -1 <= last_index_of(s, c) < s.len(),
        last_index_of(s, c) >= 0 ==> s[last_index_of(s, c)] == c,
        forall|j: int| 0 <= j < s.len() && j > last_index_of(s, c) ==> s[j] != c,
    decreases s.len(),
{
    if s.len() > 0 && s.last() != c {
        lemma_last_index_bounds(s.drop_last(), c);
        assert forall|j: int| 0 <= j < s.len() && j > last_index_of(s, c) implies s[j] != c by {
            if j < s.len() - 1 {
                assert(s[j] == s.drop_last()[j]);
            }
        }
    }
}

/// An extension is shorter than its path by at least the dot before it.
pub proof fn lemma_extension_fits(p: Seq<char>)
    ensures
        extension_of(p) matches Some(e) ==> e.len() + 1 <= p.len(),
{
    lemma_last_index_bounds(p, '/');
    lemma_last_index_bounds(file_name_of(p), '.');
}

/// The characters of `s`.
pub fn chars_of(s: &str) -> (r: Vec<char>)
    ensures
        r@ == s@,
{
    let mut r: Vec<char> = Vec::new();
    for c in it: s.chars()
        invariant
            it.seq() == s@,
            r@ == it.seq().take(it.index() as int),
    {
        proof {
            assert(it.seq().take(it.index() as int).push(c) =~= it.seq().take(it.index() + 1));
        }
        r.push(c);
    }
    proof {
        assert(r@ =~= s@);
    }
    r
}

/// The position of the last `c` in `cs` before `end`.
fn last_position(cs: &Vec<char>, c: char, end: usize) -> (r: Option<usize>)
    requires
        end <= cs@.len(),
    ensures
        r is None ==> last_index_of(cs@.subrange(0, end as int), c) == -1,
        r matches Some(i) ==> i < end && i == last_index_of(cs@.subrange(0, end as int), c),
{
    let ghost s = cs@.subrange(0, end as int);
    let mut i: usize = end;
    while i > 0
        invariant
            i <= end <= cs@.len(),
            s == cs@.subrange(0, end as int),
            forall|j: int| i <= j < end ==> s[j] != c,
        decreases i,
    {
        proof {
            assert(s[i - 1] == cs@[i - 1]);
        }
        if cs[i - 1] == c {
            proof {
                lemma_last_index(s, c, i - 1);
            }
            return Some(i - 1);
        }
        i = i - 1;
    }
    proof {
        lemma_last_index(s, c, -1);
    }
    None
}

/// The position of the first `c` in `cs` at or after `start`, relative to
/// `start`.
fn first_position(cs: &Vec<char>, c: char, start: usize) -> (r: Option<usize>)
    requires
        start <= cs@.len(),
    ensures
        r is None ==> first_index_of(cs@.subrange(start as int, cs@.len() as int), c) == -1,
        r matches Some(i) ==> i < cs@.len() - start && i == first_index_of(
            cs@.subrange(start as int, cs@.len() as int),
            c,
        ),
{
    let ghost rest = cs@.subrange(start as int, cs@.len() as int);
    let mut i: usize = start;
    while i < cs.len()
        invariant
            start <= i <= cs@.len(),
            rest == cs@.subrange(start as int, cs@.len() as int),
            forall|j: int| 0 <= j < i - start ==> rest[j] != c,
        decreases cs@.len() - i,
    {
        proof {
            assert(rest[i - start] == cs@[i as int]);
        }
        if cs[i] == c {
            proof {
                lemma_first_index(rest, c, i - start);
            }
            return Some(i - start);
        }
        i = i + 1;
    }
    proof {
        lemma_first_index(rest, c, -1);
    }
    None
}

/// The extension of `path`, as [`extension_of`] describes it.
pub fn path_extension(path: &str) -> (r: Option<String>)
    ensures
        r is None <==> extension_of(path@) is None,
        r matches Some(e) ==> extension_of(path@) == Some(e@),
{
    let cs = chars_of(path);
    let n = cs.len();
    proof {
        assert(cs@.subrange(0, n as int) =~= path@);
    }
    let start: usize = match last_position(&cs, '/', n) {
        Some(i) => i + 1,
        None => 0,
    };
    proof {
        assert(cs@.len() == path@.len());
    }
    let ghost name = file_name_of(path@);
    let name_cs = chars_of(path.substring_char(start, n));
    proof {
        assert(name_cs@ =~= name);
        assert(name_cs@.subrange(0, name_cs@.len() as int) =~= name);
    }
    let d: usize = match last_position(&name_cs, '.', name_cs.len()) {
        Some(d) => d,
        None => return None,
    };
    if d == 0 {
        return None;
    }
    let m = name_cs.len();
    if m == 2 && name_cs[0] == '.' && name_cs[1] == '.' {
        proof {
            assert(name =~= seq!['.', '.']);
        }
        return None;
    }
    proof {
        if name == seq!['.', '.'] {
            assert(name[0] == '.' && name[1] == '.');
        }
    }
    let ext = path.substring_char(start + d + 1, n);
    proof {
        assert(ext@ =~= name.subrange(d + 1, name.len() as int));
    }
    Some(ext.to_owned())
}

/// Whether `path` passes the comma-separated extension filter `extensions`:
/// an empty filter passes every path, otherwise the path's extension has to
/// be in the list, each item trimmed and compared without regard to case.
pub fn matches_extension(path: &str, extensions: &str) -> (r: bool)
    ensures
        r == matches_extension_spec(path@, extensions@),
{
    let cs = chars_of(extensions);
    let n = cs.len();
    if n == 0 {
        return true;
    }
    let ext = match path_extension(path) {
        Some(e) => e,
        None => return false,
    };
    let wanted = lowercase(ext.as_str());
    let ghost all = split_on(extensions@, ',');
    let ghost mut seen: Seq<Seq<char>> = Seq::empty();
    let mut start: usize = 0;
    proof {
        assert(cs@.subrange(0, n as int) =~= cs@);
    }
    loop
        invariant
            start <= n,
            n == cs@.len(),
            0 < n,
            cs@ == extensions@,
            wanted@ == lower_of(ext@),
            extension_of(path@) == Some(ext@),
            all == split_on(extensions@, ','),
            all == seen + split_on(cs@.subrange(start as int, n as int), ','),
            forall|i: int| 0 <= i < seen.len() ==> lower_of(trim_of(#[trigger] seen[i])) != lower_of(ext@),
        decreases n - start,
    {
        let ghost rest = cs@.subrange(start as int, n as int);
        let found = first_position(&cs, ',', start);
        let ghost k: int = match found {
            Some(k) => k as int,
            None => -1,
        };
        let end: usize = match found {
            Some(k) => start + k,
            None => n,
        };
        proof {
            lemma_first_index_bounds(rest, ',');
        }
        let piece = extensions.substring_char(start, end);
        let item = lowercase(trim(piece));
        proof {
            assert(piece@ =~= rest.subrange(0, end - start));
        }
        if item == wanted {
            proof {
                if k < 0 {
                    assert(rest.subrange(0, end - start) =~= rest);
                    assert(all == seen + seq![rest]);
                } else {
                    assert(all == seen + (seq![rest.subrange(0, k as int)] + split_on(
                        rest.subrange(k + 1, rest.len() as int),
                        ',',
                    )));
                }
                assert(all[seen.len() as int] == piece@);
            }
            return true;
        }
        if found.is_none() {
            proof {
                assert(rest.subrange(0, end - start) =~= rest);
                assert(all == seen + seq![rest]);
                assert forall|i: int| 0 <= i < all.len() implies lower_of(trim_of(#[trigger] all[i]))
                    != lower_of(ext@) by {
                    if i < seen.len() {
                        assert(all[i] == seen[i]);
                    } else {
                        assert(all[i] == piece@);
                        assert(item@ != wanted@);
                    }
                }
                assert(!in_ext_list(ext@, extensions@));
            }
            return false;
        }
        proof {
            let tail = rest.subrange(k + 1, rest.len() as int);
            assert(tail =~= cs@.subrange(end + 1, n as int));
            assert(split_on(rest, ',') == seq![rest.subrange(0, k as int)] + split_on(tail, ','));
            seen = seen.push(piece@);
            assert(all =~= seen + split_on(tail, ','));
        }
        start = end + 1;
    }
}

} // verus!
