//! The last part of a path, and its stem.

use vstd::prelude::*;

use crate::text::{chars_of, string_of};

verus! {

/// Where `c` stands last, counted from one; zero where it does not.
pub open spec fn after_last(s: Seq<char>, c: char) -> nat
    decreases s.len(),
{
    if s.len() == 0 {
        0
    } else if s.last() == c {
        s.len()
    } else {
        after_last(s.drop_last(), c)
    }
}

/// What follows the last slash.
pub open spec fn last_part(path: Seq<char>) -> Seq<char> {
    path.skip(after_last(path, '/') as int)
}

/// A path that every system reads alike: without a backslash or a colon, without two
/// slashes at its beginning, and with a name at its end.
pub open spec fn plain_path(path: Seq<char>) -> bool {
    &&& !path.contains('\\')
    &&& !path.contains(':')
    &&& !(path.len() >= 2 && path[0] == '/' && path[1] == '/')
    &&& last_part(path).len() > 0
    &&& last_part(path) != "."@
    &&& last_part(path) != ".."@
}

/// `std::path::Path::file_name`: of a path that every system reads alike, the part
/// after the last slash. What other paths end in differs from system to system, and
/// nothing is said of it.
#[verifier::external_body]
fn file_name(path: &str) -> (r: Option<String>)
    ensures
        match r {
            Some(name) => plain_path(path@) ==> name@ == last_part(path@),
            None => !plain_path(path@),
        },
{
    std::path::Path::new(path).file_name().map(|name| name.to_string_lossy().into_owned())
}

/// The name that a path ends in, or the path itself where it ends in none.
pub fn name_or_path(name: Option<String>, path: &str) -> (r: String)
    ensures
        r@ == match name {
            Some(n) => n@,
            None => path@,
        },
{
    match name {
        Some(n) => n,
        None => path.to_owned(),
    }
}

/// The name of a file without its directories.
pub fn base_name(path: &str) -> (r: String)
    ensures
        plain_path(path@) ==> r@ == last_part(path@),
{
    name_or_path(file_name(path), path)
}

/// A file's name without its extension: what stands before the last dot. A dot at
/// the very beginning does not count.
pub open spec fn stem(name: Seq<char>) -> Seq<char> {
    if after_last(name, '.') > 1 {
        name.take(after_last(name, '.') - 1)
    } else {
        name
    }
}

/// The stem of a file's name; empty where there is no name.
pub fn stem_of_name(name: &Option<String>) -> (r: String)
    ensures
        r@ == match *name {
            Some(n) => stem(n@),
            None => Seq::<char>::empty(),
        },
{
    match name {
        Some(n) => {
            let chars = chars_of(n.as_str());
            let ghost all = n@;
            let mut i: usize = chars.len();
            assert(all.take(i as int) == all);
            while i > 0 && chars[i - 1] != '.'
                invariant
                    i <= chars.len(),
                    chars@ == all,
                    after_last(all, '.') == after_last(all.take(i as int), '.'),
                decreases i,
            {
                assert(all.take(i as int).drop_last() == all.take(i - 1));
                i -= 1;
            }
            if i > 1 {
                string_of(vstd::slice::slice_subrange(chars.as_slice(), 0, i - 1))
            } else {
                n.clone()
            }
        },
        None => String::new(),
    }
}

/// The stem of the file that a path leads to.
pub fn file_stem(path: &str) -> (r: String)
    ensures
        plain_path(path@) ==> r@ == stem(last_part(path@)),
{
    stem_of_name(&file_name(path))
}

proof fn lemma_last_at(s: Seq<char>, c: char, at: int)
    requires
        0 <= at < s.len(),
        s[at] == c,
        forall|i: int| at < i < s.len() ==> #[trigger] s[i] != c,
    ensures
        after_last(s, c) == at + 1,
    decreases s.len(),
{
    if at < s.len() - 1 {
        assert(s.last() == s[s.len() - 1]);
        lemma_last_at(s.drop_last(), c, at);
    }
}

proof fn lemma_not_there(s: Seq<char>, c: char)
    requires
        forall|i: int| 0 <= i < s.len() ==> #[trigger] s[i] != c,
    ensures
        after_last(s, c) == 0,
    decreases s.len(),
{
    if s.len() > 0 {
        assert(s.last() == s[s.len() - 1]);
        lemma_not_there(s.drop_last(), c);
    }
}

/// A name without a slash is the last part of every path that leads to it through
/// directories, and of itself.
pub proof fn directories_do_not_count(dir: Seq<char>, name: Seq<char>)
    requires
        !name.contains('/'),
    ensures
        last_part(dir + seq!['/'] + name) == name,
        last_part(name) == name,
{
    let path = dir + seq!['/'] + name;
    assert forall|i: int| 0 <= i < name.len() implies #[trigger] name[i] != '/' by {
        assert(name.contains(name[i]));
    }
    lemma_not_there(name, '/');
    assert forall|i: int| dir.len() < i < path.len() implies #[trigger] path[i] != '/' by {
        assert(path[i] == name[i - dir.len() - 1]);
    }
    lemma_last_at(path, '/', dir.len() as int);
    assert(last_part(path) =~= name);
    assert(last_part(name) =~= name);
}

/// An extension without a dot is taken off a name that stands before it, however many
/// dots the name has itself; a name without a dot, or with one at its beginning alone,
/// stays whole.
pub proof fn one_extension_is_taken_off(name: Seq<char>, extension: Seq<char>)
    requires
        !extension.contains('.'),
    ensures
        name.len() > 0 ==> stem(name + seq!['.'] + extension) == name,
        stem(seq!['.'] + extension) == seq!['.'] + extension,
        stem(extension) == extension,
{
    let whole = name + seq!['.'] + extension;
    let hidden = seq!['.'] + extension;
    assert forall|i: int| 0 <= i < extension.len() implies #[trigger] extension[i] != '.' by {
        assert(extension.contains(extension[i]));
    }
    lemma_not_there(extension, '.');
    assert forall|i: int| name.len() < i < whole.len() implies #[trigger] whole[i] != '.' by {
        assert(whole[i] == extension[i - name.len() - 1]);
    }
    lemma_last_at(whole, '.', name.len() as int);
    assert forall|i: int| 0 < i < hidden.len() implies #[trigger] hidden[i] != '.' by {
        assert(hidden[i] == extension[i - 1]);
    }
    lemma_last_at(hidden, '.', 0);
    if name.len() > 0 {
        assert(stem(whole) =~= name);
    }
}

/// The stem of a name is read as the name's stem, and nothing where there is no name.
pub proof fn stems_are_read(name: Seq<char>, extension: Seq<char>, n: Option<String>, r: String)
    requires
        call_ensures(stem_of_name, (&n,), r),
        !extension.contains('.'),
    ensures
        n is None ==> r@.len() == 0,
        n matches Some(s) ==> {
            &&& name.len() > 0 && s@ == name + seq!['.'] + extension ==> r@ == name
            &&& s@ == extension ==> r@ == extension
        },
{
    one_extension_is_taken_off(name, extension);
}

/// Of a path that every system reads alike, the name is what follows its directories,
/// and the stem that name without its extension.
pub proof fn names_are_read_from_paths(
    path: &str,
    name: String,
    short: String,
    dir: Seq<char>,
    base: Seq<char>,
    extension: Seq<char>,
)
    requires
        call_ensures(base_name, (path,), name),
        call_ensures(file_stem, (path,), short),
        plain_path(path@),
        path@ == dir + seq!['/'] + (base + seq!['.'] + extension),
        base.len() > 0,
        !base.contains('/'),
        !extension.contains('/'),
        !extension.contains('.'),
    ensures
        name@ == base + seq!['.'] + extension,
        short@ == base,
{
    let whole = base + seq!['.'] + extension;
    assert(!whole.contains('/')) by {
        if whole.contains('/') {
            let i = choose|i: int| 0 <= i < whole.len() && whole[i] == '/';
            if i < base.len() {
                assert(base[i] == '/');
            } else if i > base.len() {
                assert(extension[i - base.len() - 1] == '/');
            }
        }
    }
    directories_do_not_count(dir, whole);
    one_extension_is_taken_off(base, extension);
}

} // verus!
