//! The names of files and folders.

use vstd::prelude::*;

use crate::dialogs::{job_title, saved_words};
use crate::native::{
    displayed, kind_of, prefix_end, readable, rest_of, unescaped, PathKind, ESCAPE,
};
use crate::paths::{
    ascii_lower, behind_last, extension_of, folder_of, last_part, marked_name, name_of, part_start,
    pdf_name, same_place, stem_of,
};

verus! {

/// Whether a text is the name of a file: it is not empty, is no dots alone, and
/// holds no slash.
pub open spec fn is_name(name: Seq<char>) -> bool {
    &&& name.len() > 0
    &&& name != seq!['.']
    &&& name != seq!['.', '.']
    &&& !name.contains('/')
}

proof fn lemma_part_start(chars: Seq<char>, start: int, n: int)
    requires
        0 <= start <= n <= chars.len(),
        start > 0 ==> chars[start - 1] == '/',
        forall|i: int| start <= i < n ==> #[trigger] chars[i] != '/',
    ensures
        part_start(chars, PathKind::Slashes, n) == start,
    decreases n,
{
    if n > start {
        lemma_part_start(chars, start, n - 1);
    }
}

/// What stands behind the last slash of a path is its name.
pub proof fn law_name_stands_behind_the_last_slash(folder: Seq<char>, name: Seq<char>)
    requires
        is_name(name),
        folder.len() > 0 ==> folder[0] != ESCAPE,
        name[0] != ESCAPE,
    ensures
        name_of(folder + seq!['/'] + name) == Some(name),
        name_of(name) == Some(name),
{
    lemma_name(folder + seq!['/'], name);
    lemma_name(Seq::empty(), name);
    assert(Seq::<char>::empty() + name =~= name);
}

proof fn lemma_name(before: Seq<char>, name: Seq<char>)
    requires
        is_name(name),
        before.len() > 0 ==> before[0] != ESCAPE && before.last() == '/',
        name[0] != ESCAPE,
    ensures
        last_part(before + name, PathKind::Slashes) == Some(
            (before.len() as int, (before + name).len() as int),
        ),
        kind_of(before + name) == PathKind::Slashes,
        rest_of(before + name) == before + name,
        name_of(before + name) == Some(name),
{
    let path = before + name;
    let start = before.len() as int;
    assert(path[0] != ESCAPE);
    assert(prefix_end(path) is None);
    assert(path.skip(0) =~= path);
    assert forall|i: int| start <= i < path.len() implies #[trigger] path[i] != '/' by {
        assert(path[i] == name[i - start]);
        assert(name.contains(name[i - start]));
    }
    lemma_part_start(path, start, path.len() as int);
    assert(path.skip(start) =~= name);
    assert(path.subrange(start, path.len() as int) =~= name);
}

/// A file lies in the folder that stands before its name.
pub proof fn law_folder_stands_before_the_name(folder: Seq<char>, name: Seq<char>)
    requires
        is_name(name),
        is_name(folder),
        folder[0] != ESCAPE,
        folder.last() != '.',
    ensures
        folder_of(folder + seq!['/'] + name) == Some(folder),
        folder_of(seq!['/'] + folder + seq!['/'] + name) == Some(seq!['/'] + folder),
        folder_of(seq!['/'] + name) == Some(seq!['/']),
        folder_of(seq!['/']) is None,
{
    lemma_folder(folder, name);
    lemma_folder(seq!['/'] + folder, name);
    lemma_name_behind(seq!['/'], name);
    let path = seq!['/'] + name;
    assert(path.take(1) =~= seq!['/']);
    assert(path.take(0) + seq!['/'] =~= seq!['/']);
    let root = seq!['/'];
    assert(root[0] != ESCAPE);
    assert(root.skip(0) =~= root);
    assert(part_start(root, PathKind::Slashes, 1) == 1);
    assert(root.skip(1).len() == 0);
    assert(root.take(0) =~= Seq::<char>::empty());
    assert(part_start(Seq::<char>::empty(), PathKind::Slashes, 0) == 0);
    assert(last_part(Seq::<char>::empty(), PathKind::Slashes) is None);
}

proof fn lemma_name_behind(before: Seq<char>, name: Seq<char>)
    requires
        is_name(name),
        before.len() > 0,
        before[0] != ESCAPE,
        before.last() == '/',
    ensures
        last_part(before + name, PathKind::Slashes) == Some(
            (before.len() as int, (before + name).len() as int),
        ),
        kind_of(before + name) == PathKind::Slashes,
        rest_of(before + name) == before + name,
        crate::native::rest_at(before + name) == 0,
{
    let path = before + name;
    let start = before.len() as int;
    assert(path[0] != ESCAPE);
    assert(prefix_end(path) is None);
    assert(path.skip(0) =~= path);
    assert forall|i: int| start <= i < path.len() implies #[trigger] path[i] != '/' by {
        assert(path[i] == name[i - start]);
        assert(name.contains(name[i - start]));
    }
    lemma_part_start(path, start, path.len() as int);
    assert(path.skip(start) =~= name);
}

proof fn lemma_folder(folder: Seq<char>, name: Seq<char>)
    requires
        is_name(name),
        folder.len() > 0,
        folder[0] != ESCAPE,
        folder.last() != '.',
        folder.last() != '/',
    ensures
        folder_of(folder + seq!['/'] + name) == Some(folder),
{
    let before = folder + seq!['/'];
    let path = before + name;
    lemma_name_behind(before, name);
    let kind = PathKind::Slashes;
    assert(path.take(before.len() as int) =~= before);
    assert(before.drop_last() =~= folder);
    assert(before.last() == '/');
    assert(crate::paths::trimmed(folder, kind) == folder);
    assert(crate::paths::trimmed(before, kind) == folder);
    assert(path.take(0) + folder =~= folder);
}

proof fn lemma_dot(stem: Seq<char>, ext: Seq<char>, n: int)
    requires
        !ext.contains('.'),
        stem.len() + 1 <= n <= stem.len() + 1 + ext.len(),
    ensures
        behind_last(stem + seq!['.'] + ext, '.', n) == stem.len() + 1,
    decreases n,
{
    let name = stem + seq!['.'] + ext;
    if n > stem.len() + 1 {
        assert(name[n - 1] == ext[n - 1 - (stem.len() + 1)]);
        assert(ext.contains(ext[n - 1 - (stem.len() + 1)]));
        lemma_dot(stem, ext, n - 1);
    } else {
        assert(name[n - 1] == '.');
    }
}

/// What stands behind the last dot of a name is its extension, and what stands
/// before it the rest of the name.
pub proof fn law_extension_stands_behind_the_last_dot(stem: Seq<char>, ext: Seq<char>)
    requires
        stem.len() > 0,
        !ext.contains('.'),
    ensures
        stem_of(stem + seq!['.'] + ext) == stem,
        extension_of(stem + seq!['.'] + ext) == Some(ext),
{
    let name = stem + seq!['.'] + ext;
    lemma_dot(stem, ext, name.len() as int);
    assert(name.take(stem.len() as int) =~= stem);
    assert(name.skip((stem.len() + 1) as int) =~= ext);
}

/// A name without a dot has no extension.
pub proof fn law_names_without_dots(name: Seq<char>)
    requires
        !name.contains('.'),
    ensures
        stem_of(name) == name,
        extension_of(name) is None,
{
    lemma_no_dot(name, name.len() as int);
}

proof fn lemma_no_dot(name: Seq<char>, n: int)
    requires
        !name.contains('.'),
        0 <= n <= name.len(),
    ensures
        behind_last(name, '.', n) == 0,
    decreases n,
{
    if n > 0 {
        assert(name.contains(name[n - 1]));
        lemma_no_dot(name, n - 1);
    }
}

/// The copy of a document is named after it, with a suffix in place of what
/// stands behind its last dot.
pub proof fn law_copies_are_named_after_the_document(
    folder: Seq<char>,
    stem: Seq<char>,
    ext: Seq<char>,
)
    requires
        stem.len() > 0,
        !ext.contains('.'),
        !stem.contains('/'),
        !ext.contains('/'),
        !stem.contains(ESCAPE),
        folder.len() > 0 ==> folder[0] != ESCAPE,
        stem != seq!['.'] || ext.len() > 0,
    ensures
        marked_name(folder + seq!['/'] + (stem + seq!['.'] + ext)) == stem + " (marcado).pdf"@,
{
    let name = stem + seq!['.'] + ext;
    lemma_is_name(stem, ext);
    assert(name[0] == stem[0]);
    assert(stem.contains(stem[0]));
    law_name_stands_behind_the_last_slash(folder, name);
    law_extension_stands_behind_the_last_dot(stem, ext);
}

proof fn lemma_is_name(stem: Seq<char>, ext: Seq<char>)
    requires
        stem.len() > 0,
        !ext.contains('.'),
        !stem.contains('/'),
        !ext.contains('/'),
        stem != seq!['.'] || ext.len() > 0,
    ensures
        is_name(stem + seq!['.'] + ext),
{
    let name = stem + seq!['.'] + ext;
    assert(name.len() >= 2);
    assert(name != seq!['.']);
    if name == seq!['.', '.'] {
        assert(name.len() == 2);
        assert(stem.len() == 1 && ext.len() == 0);
        assert(name[0] == stem[0]);
        assert(stem =~= seq!['.']);
    }
    if name.contains('/') {
        let i = choose|i: int| 0 <= i < name.len() && name[i] == '/';
        if i < stem.len() {
            assert(stem[i] == '/');
        } else if i > stem.len() {
            assert(ext[i - stem.len() - 1] == '/');
        }
    }
}

/// A file is a document if its extension says so, in whatever case; a file with
/// another extension, or with none, is not.
pub proof fn law_documents_are_known_by_their_extension(
    folder: Seq<char>,
    stem: Seq<char>,
    ext: Seq<char>,
)
    requires
        stem.len() > 0,
        !ext.contains('.'),
        !stem.contains('/'),
        !ext.contains('/'),
        stem[0] != ESCAPE,
        folder.len() > 0 ==> folder[0] != ESCAPE,
        stem != seq!['.'] || ext.len() > 0,
    ensures
        pdf_name(folder + seq!['/'] + (stem + seq!['.'] + ext)) <==> (ext.len() == 3 && (ext[0] == 'p'
            || ext[0] == 'P') && (ext[1] == 'd' || ext[1] == 'D') && (ext[2] == 'f' || ext[2]
            == 'F')),
{
    let name = stem + seq!['.'] + ext;
    lemma_is_name(stem, ext);
    assert(name[0] == stem[0]);
    law_name_stands_behind_the_last_slash(folder, name);
    law_extension_stands_behind_the_last_dot(stem, ext);
    if ext.len() == 3 {
        lemma_letter(ext[0], 'p', 'P');
        lemma_letter(ext[1], 'd', 'D');
        lemma_letter(ext[2], 'f', 'F');
    }
}

proof fn lemma_letter(ch: char, lower: char, upper: char)
    requires
        'a' <= lower <= 'z',
        'A' <= upper <= 'Z',
        lower as u32 == upper as u32 + 32,
    ensures
        ascii_lower(ch) == lower <==> ch == lower || ch == upper,
{
}

/// Slashes in a row lead where one does.
pub proof fn law_slashes_in_a_row_count_once(folder: Seq<char>, name: Seq<char>)
    requires
        is_name(name),
        folder.len() > 0,
        folder[0] != ESCAPE,
    ensures
        same_place(folder + seq!['/', '/'] + name, folder + seq!['/'] + name),
{
    let one = folder + seq!['/'];
    let two = folder + seq!['/', '/'];
    lemma_name_behind(one, name);
    assert(two.last() == '/');
    lemma_name_behind(two, name);
    let kind = PathKind::Slashes;
    let a = two + name;
    let b = one + name;
    assert(a.take(two.len() as int) =~= two);
    assert(b.take(one.len() as int) =~= one);
    assert(a.subrange(two.len() as int, a.len() as int) =~= name);
    assert(b.subrange(one.len() as int, b.len() as int) =~= name);
    crate::paths::law_slashes_at_end_do_not_count(one);
    assert(one + seq!['/'] =~= two);
    assert(one.skip(0) =~= one && two.skip(0) =~= two);
    assert(one[0] != ESCAPE && two[0] != ESCAPE);
    assert(prefix_end(one) is None && prefix_end(two) is None);
    assert(crate::paths::parts_of(one, kind) == crate::paths::parts_of(two, kind));
    assert(prefix_end(a) is None && prefix_end(b) is None);
}

/// Files with other names are elsewhere.
pub proof fn law_other_names_are_elsewhere(folder: Seq<char>, a: Seq<char>, b: Seq<char>)
    requires
        is_name(a),
        is_name(b),
        folder.len() > 0,
        folder[0] != ESCAPE,
        a != b,
    ensures
        !same_place(folder + seq!['/'] + a, folder + seq!['/'] + b),
{
    let before = folder + seq!['/'];
    lemma_name_behind(before, a);
    lemma_name_behind(before, b);
    let x = before + a;
    let y = before + b;
    let kind = PathKind::Slashes;
    assert(x.subrange(before.len() as int, x.len() as int) =~= a);
    assert(y.subrange(before.len() as int, y.len() as int) =~= b);
    assert(crate::paths::parts_of(x, kind).last() == a);
    assert(crate::paths::parts_of(y, kind).last() == b);
}

/// A path that holds nothing but text is shown as it is, and a mark that was
/// doubled is shown once.
pub proof fn law_text_is_shown_as_it_is(text: Seq<char>)
    ensures
        !text.contains(ESCAPE) ==> displayed(text) == text && readable(text),
        displayed(seq![ESCAPE, ESCAPE]) == seq![ESCAPE],
{
    let two = seq![ESCAPE, ESCAPE];
    assert(two[0] == ESCAPE);
    assert(unescaped(two, 2) =~= Seq::<char>::empty());
    assert(unescaped(two, 0) =~= seq![ESCAPE]);
}

/// A print job has the name of its document up to the last dot, and a saved
/// copy is told by its name.
pub proof fn law_jobs_and_copies_are_named(folder: Seq<char>, stem: Seq<char>, ext: Seq<char>)
    requires
        stem.len() > 0,
        !stem.contains(ESCAPE),
        !ext.contains(ESCAPE),
        !ext.contains('.'),
        is_name(stem + seq!['.'] + ext),
        folder.len() > 0 ==> folder[0] != ESCAPE,
    ensures
        ({
            let name = stem + seq!['.'] + ext;
            &&& job_title(folder + seq!['/'] + name) == stem
            &&& saved_words(folder + seq!['/'] + name) == "Cópia salva em "@ + name
        }),
{
    let name = stem + seq!['.'] + ext;
    assert(stem.contains(stem[0]));
    assert(name[0] == stem[0]);
    law_name_stands_behind_the_last_slash(folder, name);
    law_extension_stands_behind_the_last_dot(stem, ext);
    assert(!name.contains(ESCAPE)) by {
        if name.contains(ESCAPE) {
            let k = choose|k: int| 0 <= k < name.len() && name[k] == ESCAPE;
            if k < stem.len() {
                assert(stem[k] == ESCAPE);
            } else if k > stem.len() {
                assert(ext[k - stem.len() - 1] == ESCAPE);
            }
        }
    }
}

} // verus!
