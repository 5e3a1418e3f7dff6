//! The walker's selection rule: which directory entries qualify for
//! scanning, decided by the file name's extension.

use vstd::prelude::*;
use vstd::string::StrSliceExecFns;

verus! {

/// `i` is the position of the last dot in `name`.
pub open spec fn is_last_dot(name: Seq<char>, i: int) -> bool {
    &&& 0 <= i < name.len()
    &&& name[i] == '.'
    &&& forall|j: int| i < j < name.len() ==> name[j] != '.'
}

/// The name has an extension: a last dot that neither leads the name (a
/// bare dot-file has no extension) nor ends it (the extension must be
/// nonempty).
pub open spec fn has_extension(name: Seq<char>) -> bool {
    exists|i: int| is_last_dot(name, i) && 0 < i && i + 1 < name.len()
}

/// What follows the last dot.
pub open spec fn extension_of(name: Seq<char>) -> Seq<char>
    recommends
        has_extension(name),
{
    name.skip((choose|i: int| is_last_dot(name, i) && 0 < i && i + 1 < name.len()) + 1)
}

/// The selection rule: an entry is scanned only if its name has a
/// nonempty extension and that extension, case-sensitively and without
/// the dot, is one of the configured extensions. A name without an
/// extension is never selected, not even when the extension list holds
/// the empty string.
pub open spec fn spec_selects(name: Seq<char>, extensions: Seq<Seq<char>>) -> bool {
    has_extension(name) && extensions.contains(extension_of(name))
}

/// At most one position can be the last dot.
proof fn lemma_last_dot_unique(name: Seq<char>, i1: int, i2: int)
    requires
        is_last_dot(name, i1),
        is_last_dot(name, i2),
    ensures
        i1 == i2,
{
    if i1 < i2 {
        assert(name[i2] != '.');
    }
    if i2 < i1 {
        assert(name[i1] != '.');
    }
}

/// Law: a name without any dot is excluded under every extension list,
/// the list that holds the empty string included.
pub proof fn lemma_no_extension_never_selected(name: Seq<char>, extensions: Seq<Seq<char>>)
    requires
        forall|j: int| 0 <= j < name.len() ==> name[j] != '.',
    ensures
        !spec_selects(name, extensions),
{
    assert forall|i: int| !(is_last_dot(name, i) && 0 < i && i + 1 < name.len()) by {
        if 0 <= i < name.len() {
            assert(name[i] != '.');
        }
    }
}

/// True iff `name@.subrange(start, end)` equals `e@`.
fn str_eq_range(name: &str, start: usize, end: usize, e: &str) -> (b: bool)
    requires
        start <= end,
        end <= name@.len(),
    ensures
        b == (name@.subrange(start as int, end as int) == e@),
{
    let e_len = e.unicode_len();
    if e_len != end - start {
        return false;
    }
    let mut j: usize = 0;
    while j < e_len
        invariant
            j <= e_len,
            e_len == e@.len(),
            e_len == end - start,
            start <= end <= name@.len(),
            forall|k: int| 0 <= k < j ==> name@[start + k] == e@[k],
        decreases e_len - j,
    {
        if name.get_char(start + j) != e.get_char(j) {
            proof {
                assert(name@.subrange(start as int, end as int)[j as int] != e@[j as int]);
            }
            return false;
        }
        j = j + 1;
    }
    proof {
        assert(name@.subrange(start as int, end as int) =~= e@);
    }
    true
}

/// Decides whether the file named `name` qualifies for scanning under
/// the configured extension list.
pub fn selects_file(name: &str, extensions: &Vec<String>) -> (r: bool)
    ensures
        r == spec_selects(name@, extensions.deep_view()),
{
    let len = name.unicode_len();
    let mut dot: usize = 0;
    let mut found = false;
    let mut i: usize = 0;
    while i < len
        invariant
            i <= len,
            len == name@.len(),
            found ==> dot < i && name@[dot as int] == '.' && forall|j: int|
                dot < j < i ==> name@[j] != '.',
            !found ==> forall|j: int| 0 <= j < i ==> name@[j] != '.',
        decreases len - i,
    {
        if name.get_char(i) == '.' {
            dot = i;
            found = true;
        }
        i = i + 1;
    }
    if !found {
        proof {
            lemma_no_extension_never_selected(name@, extensions.deep_view());
        }
        return false;
    }
    proof {
        assert(is_last_dot(name@, dot as int));
    }
    if dot == 0 || dot + 1 == len {
        proof {
            assert(!has_extension(name@)) by {
                if has_extension(name@) {
                    let c = choose|i: int|
                        is_last_dot(name@, i) && 0 < i && i + 1 < name@.len();
                    lemma_last_dot_unique(name@, c, dot as int);
                }
            }
        }
        return false;
    }
    proof {
        assert(has_extension(name@));
        let c = choose|i: int| is_last_dot(name@, i) && 0 < i && i + 1 < name@.len();
        lemma_last_dot_unique(name@, c, dot as int);
        assert(extension_of(name@) =~= name@.subrange(dot + 1, len as int));
    }
    let ext_count = extensions.len();
    let mut k: usize = 0;
    while k < ext_count
        invariant
            k <= ext_count,
            ext_count == extensions@.len(),
            len == name@.len(),
            dot + 1 < len,
            extension_of(name@) == name@.subrange(dot + 1, len as int),
            has_extension(name@),
            forall|kk: int|
                0 <= kk < k ==> extensions.deep_view()[kk] != extension_of(name@),
        decreases ext_count - k,
    {
        if str_eq_range(name, dot + 1, len, extensions[k].as_str()) {
            proof {
                assert(extensions.deep_view()[k as int] == extension_of(name@));
                assert(extensions.deep_view().contains(extension_of(name@)));
            }
            return true;
        }
        proof {
            assert(extensions.deep_view()[k as int] == extensions@[k as int]@);
        }
        k = k + 1;
    }
    proof {
        assert(!extensions.deep_view().contains(extension_of(name@)));
    }
    false
}

} // verus!
