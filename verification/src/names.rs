//! File names: their stem and extension, and which entries of a folder are
//! images that can be packed.

use vstd::prelude::*;
use crate::text::{chars_of, string_of_range};
use crate::types::FolderEntry;

verus! {

/// The index of the last `'.'` in `name`, or -1 if there is none.
pub open spec fn last_dot(name: Seq<char>) -> int
    decreases name.len(),
{
    if name.len() == 0 {
        -1
    } else if name.last() == '.' {
        name.len() - 1
    } else {
        last_dot(name.drop_last())
    }
}

/// Whether `name` is `".."`.
pub open spec fn is_parent_name(name: Seq<char>) -> bool {
    name == seq!['.', '.']
}

/// The stem of a file name, as `Path::file_stem` gives it: the part before
/// the last `'.'`, or the whole name when it has no `'.'`, when its only
/// `'.'` leads it, or when it is `".."`.
pub open spec fn file_stem(name: Seq<char>) -> Seq<char> {
    if is_parent_name(name) || last_dot(name) <= 0 {
        name
    } else {
        name.take(last_dot(name))
    }
}

/// The extension of a file name, as `Path::extension` gives it: the part
/// after the last `'.'`, and none where `file_stem` is the whole name.
pub open spec fn file_extension(name: Seq<char>) -> Option<Seq<char>> {
    if is_parent_name(name) || last_dot(name) <= 0 {
        None
    } else {
        Some(name.skip(last_dot(name) + 1))
    }
}

/// The extensions of the image files that are packed.
pub open spec fn is_supported_extension(ext: Seq<char>) -> bool {
    ||| ext == seq!['p', 'n', 'g']
    ||| ext == seq!['j', 'p', 'g']
    ||| ext == seq!['j', 'p', 'e', 'g']
    ||| ext == seq!['w', 'e', 'b', 'p']
}

/// Whether a folder entry is an image that is packed: a file whose
/// extension is supported.
pub open spec fn is_image_entry(e: FolderEntry) -> bool {
    !e.is_dir && match file_extension(e.file_name@) {
        Some(ext) => is_supported_extension(ext),
        None => false,
    }
}

/// `last_dot` is -1 or an index of the name.
pub proof fn lemma_last_dot_bounds(name: Seq<char>)
    ensures
        -1 <= last_dot(name) < name.len(),
        last_dot(name) >= 0 ==> name[last_dot(name)] == '.',
    decreases name.len(),
{
    if name.len() > 0 && name.last() != '.' {
        lemma_last_dot_bounds(name.drop_last());
    }
}

/// Whether `s` holds no `'.'`.
pub open spec fn has_no_dot(s: Seq<char>) -> bool {
    forall|i: int| 0 <= i < s.len() ==> s[i] != '.'
}

/// Characters without a dot after a name do not move its last dot.
proof fn lemma_last_dot_append(a: Seq<char>, e: Seq<char>)
    requires
        has_no_dot(e),
    ensures
        last_dot(a + e) == last_dot(a),
    decreases e.len(),
{
    if e.len() == 0 {
        assert(a + e =~= a);
    } else {
        assert((a + e).last() == e.last());
        assert((a + e).drop_last() =~= a + e.drop_last());
        lemma_last_dot_append(a, e.drop_last());
    }
}

/// The last dot of `n`, then `'.'`, then a dot-free `e` is the one after `n`.
proof fn lemma_last_dot_of_joined(n: Seq<char>, e: Seq<char>)
    requires
        has_no_dot(e),
    ensures
        last_dot(n + seq!['.'] + e) == n.len(),
        (n + seq!['.'] + e).take(n.len() as int) == n,
        (n + seq!['.'] + e).skip(n.len() as int + 1) == e,
{
    lemma_last_dot_append(n + seq!['.'], e);
    assert((n + seq!['.']).last() == '.');
    assert((n + seq!['.'] + e).take(n.len() as int) =~= n);
    assert((n + seq!['.'] + e).skip(n.len() as int + 1) =~= e);
}

/// A name split at its last dot: the part before it, the dot, and a part
/// after it that holds no dot.
proof fn lemma_last_dot_split(name: Seq<char>)
    requires
        last_dot(name) >= 0,
    ensures
        has_no_dot(name.skip(last_dot(name) + 1)),
        name == name.take(last_dot(name)) + seq!['.'] + name.skip(last_dot(name) + 1),
    decreases name.len(),
{
    lemma_last_dot_bounds(name);
    let d = last_dot(name);
    if name.last() != '.' {
        lemma_last_dot_split(name.drop_last());
        let t = name.drop_last().skip(d + 1);
        assert(name.skip(d + 1) =~= t.push(name.last()));
    }
    assert(name =~= name.take(d) + seq!['.'] + name.skip(d + 1));
}

/// The stem of a name without a dot is the whole name.
pub proof fn lemma_stem_without_dot(name: Seq<char>)
    requires
        has_no_dot(name),
    ensures
        file_stem(name) == name,
{
    lemma_last_dot_append(Seq::empty(), name);
    assert(Seq::<char>::empty() + name =~= name);
}

/// The stem of a name cuts at its last dot: a non-empty `n`, a dot and a
/// dot-free `e` have the stem `n` (so `"a.b.png"` has the stem `"a.b"`),
/// unless the name is `".."`.
pub proof fn lemma_stem_before_last_dot(n: Seq<char>, e: Seq<char>)
    requires
        n.len() > 0,
        has_no_dot(e),
        n + seq!['.'] + e != seq!['.', '.'],
    ensures
        file_stem(n + seq!['.'] + e) == n,
{
    lemma_last_dot_of_joined(n, e);
}

/// The stem of a name is the name itself, or the part of it before a dot
/// that only dot-free characters follow.
pub proof fn lemma_stem_is_name_or_before_dot(name: Seq<char>)
    ensures
        file_stem(name) == name || exists|e: Seq<char>|
            has_no_dot(e) && name == #[trigger] (file_stem(name) + seq!['.'] + e),
{
    if !(is_parent_name(name) || last_dot(name) <= 0) {
        lemma_last_dot_split(name);
        let e = name.skip(last_dot(name) + 1);
        assert(name == file_stem(name) + seq!['.'] + e);
    }
}

/// The packed images are exactly the files named by a non-empty name, a dot
/// and one of `png`, `jpg`, `jpeg` or `webp`: a directory, or a file with
/// any other extension (`json`, `txt`, `gif`, ...) or none, is never packed.
pub proof fn lemma_image_entries(e: FolderEntry)
    ensures
        is_image_entry(e) <==> !e.is_dir && exists|n: Seq<char>, ext: Seq<char>|
            n.len() > 0 && e.file_name@ == #[trigger] (n + seq!['.'] + ext) && (ext == seq!['p', 'n', 'g'] || ext == seq![
                'j',
                'p',
                'g',
            ] || ext == seq!['j', 'p', 'e', 'g'] || ext == seq!['w', 'e', 'b', 'p']),
{
    let name = e.file_name@;
    if is_image_entry(e) {
        lemma_last_dot_split(name);
        lemma_last_dot_bounds(name);
        let d = last_dot(name);
        let ext = name.skip(d + 1);
        assert(file_extension(name) == Some(ext));
        assert(is_supported_extension(ext));
        assert(name.take(d).len() > 0);
        assert(name == name.take(d) + seq!['.'] + ext);
    }
    if !e.is_dir && exists|n: Seq<char>, ext: Seq<char>|
        n.len() > 0 && e.file_name@ == #[trigger] (n + seq!['.'] + ext) && (ext == seq!['p', 'n', 'g'] || ext == seq![
            'j',
            'p',
            'g',
        ] || ext == seq!['j', 'p', 'e', 'g'] || ext == seq!['w', 'e', 'b', 'p']) {
        let (n, ext) = choose|n: Seq<char>, ext: Seq<char>|
            n.len() > 0 && e.file_name@ == #[trigger] (n + seq!['.'] + ext) && (ext == seq!['p', 'n', 'g'] || ext == seq![
                'j',
                'p',
                'g',
            ] || ext == seq!['j', 'p', 'e', 'g'] || ext == seq!['w', 'e', 'b', 'p']);
        assert(has_no_dot(ext));
        lemma_last_dot_of_joined(n, ext);
        assert(name.len() > 2);
        assert(!is_parent_name(name));
        assert(last_dot(name) > 0);
        assert(file_extension(name) == Some(ext));
        assert(is_supported_extension(ext));
    }
}

/// The index of the last `'.'` among `cs`, if there is one.
fn find_last_dot(cs: &Vec<char>) -> (r: Option<usize>)
    ensures
        r matches Some(k) ==> k == last_dot(cs@),
        r is None ==> last_dot(cs@) == -1,
{
    let mut i: usize = cs.len();
    assert(cs@.take(cs@.len() as int) =~= cs@);
    while i > 0
        invariant
            i <= cs@.len(),
            last_dot(cs@) == last_dot(cs@.take(i as int)),
        decreases i,
    {
        if cs[i - 1] == '.' {
            assert(cs@.take(i as int).last() == '.');
            return Some(i - 1);
        }
        assert(cs@.take(i as int).drop_last() =~= cs@.take(i - 1));
        i = i - 1;
    }
    None
}

/// Whether `cs` is `".."`.
fn chars_are_parent(cs: &Vec<char>) -> (r: bool)
    ensures
        r == is_parent_name(cs@),
{
    let r = cs.len() == 2 && cs[0] == '.' && cs[1] == '.';
    proof {
        if cs@.len() == 2 && cs@[0] == '.' && cs@[1] == '.' {
            assert(cs@ =~= seq!['.', '.']);
        }
    }
    r
}

/// Whether `cs` from index `lo` on are the characters of `lit`.
fn chars_equal_from(cs: &Vec<char>, lo: usize, lit: &Vec<char>) -> (r: bool)
    requires
        lo <= cs@.len(),
    ensures
        r == (cs@.skip(lo as int) == lit@),
{
    if cs.len() - lo != lit.len() {
        proof {
            if cs@.skip(lo as int) == lit@ {
                assert(cs@.skip(lo as int).len() == lit@.len());
            }
        }
        return false;
    }
    let mut i: usize = 0;
    while i < lit.len()
        invariant
            lo <= cs@.len(),
            cs.len() == cs@.len(),
            cs@.len() - lo == lit@.len(),
            i <= lit@.len(),
            forall|j: int| 0 <= j < i ==> cs@[lo + j] == lit@[j],
        decreases lit@.len() - i,
    {
        if cs[lo + i] != lit[i] {
            proof {
                assert(cs@.skip(lo as int)[i as int] != lit@[i as int]);
            }
            return false;
        }
        i = i + 1;
    }
    assert(cs@.skip(lo as int) =~= lit@);
    true
}

/// The stem of the file name `name` (see `file_stem`).
pub fn stem_of(name: &str) -> (r: String)
    ensures
        r@ == file_stem(name@),
{
    let cs = chars_of(name);
    proof {
        lemma_last_dot_bounds(cs@);
    }
    let parent = chars_are_parent(&cs);
    match find_last_dot(&cs) {
        Some(dot) if !parent && dot > 0 => string_of_range(&cs, 0, dot),
        _ => {
            assert(cs@.subrange(0, cs@.len() as int) =~= cs@);
            string_of_range(&cs, 0, cs.len())
        },
    }
}

/// Whether the file name `name` has a supported image extension.
pub fn has_supported_extension(name: &str) -> (r: bool)
    ensures
        r == match file_extension(name@) {
            Some(ext) => is_supported_extension(ext),
            None => false,
        },
{
    let cs = chars_of(name);
    proof {
        lemma_last_dot_bounds(cs@);
    }
    let parent = chars_are_parent(&cs);
    let len = cs.len();
    let lo = match find_last_dot(&cs) {
        Some(dot) if !parent && dot > 0 && dot < len => dot + 1,
        _ => {
            return false;
        },
    };
    let png = vec!['p', 'n', 'g'];
    let jpg = vec!['j', 'p', 'g'];
    let jpeg = vec!['j', 'p', 'e', 'g'];
    let webp = vec!['w', 'e', 'b', 'p'];
    proof {
        assert(png@ =~= seq!['p', 'n', 'g']);
        assert(jpg@ =~= seq!['j', 'p', 'g']);
        assert(jpeg@ =~= seq!['j', 'p', 'e', 'g']);
        assert(webp@ =~= seq!['w', 'e', 'b', 'p']);
    }
    chars_equal_from(&cs, lo, &png) || chars_equal_from(&cs, lo, &jpg) || chars_equal_from(&cs, lo, &jpeg)
        || chars_equal_from(&cs, lo, &webp)
}

/// The entries of a folder that are images to pack: files whose extension
/// is `png`, `jpg`, `jpeg` or `webp` (compared as written); directories and
/// other files are skipped. The order of the entries is kept.
pub fn extract_image_paths(entries: &Vec<FolderEntry>) -> (r: Vec<FolderEntry>)
    ensures
        r@ == entries@.filter(|e: FolderEntry| is_image_entry(e)),
{
    let mut r: Vec<FolderEntry> = Vec::new();
    let mut i: usize = 0;
    while i < entries.len()
        invariant
            i <= entries@.len(),
            r@ == entries@.take(i as int).filter(|e: FolderEntry| is_image_entry(e)),
        decreases entries@.len() - i,
    {
        let e = &entries[i];
        proof {
            reveal_with_fuel(Seq::filter, 1);
            assert(entries@.take(i + 1).drop_last() =~= entries@.take(i as int));
        }
        if !e.is_dir && has_supported_extension(e.file_name.as_str()) {
            r.push(e.clone());
        }
        i = i + 1;
    }
    assert(entries@.take(entries@.len() as int) =~= entries@);
    r
}

} // verus!
