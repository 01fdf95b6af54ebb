//! What paths are made of, and when they name the same file.

use vstd::prelude::*;

use crate::paths::{
    canonical, extended, extension_of, extension_of_name, has_parent, is_image, is_rooted,
    joined_path, last_dot, last_segment, lemma_last_dot, lemma_last_segment, name_of, parent_of,
    plain, stem_of, stem_of_name, without_tail,
};
use crate::text::{joined, lemma_split_nonempty, same_ignoring_case, split, Separators};
use crate::text_laws::{
    law_glue_stands_between_parts, law_separator_parts_texts, law_text_without_separator_is_whole,
};

verus! {

/// Whether a text can be the name of a file.
pub open spec fn is_name(name: Seq<char>) -> bool {
    &&& name.len() > 0
    &&& name != seq!['.']
    &&& name != seq!['.', '.']
    &&& forall|i: int| 0 <= i < name.len() ==> #[trigger] name[i] != '/'
}

/// A path to a name in a directory.
pub open spec fn in_directory(directory: Seq<char>, name: Seq<char>) -> Seq<char> {
    directory.push('/') + name
}

proof fn lemma_no_tail(path: Seq<char>, name: Seq<char>, from: int)
    requires
        is_name(name),
        0 <= from,
        from + name.len() == path.len(),
        path.skip(from) == name,
        from == 0 || path[from - 1] == '/',
    ensures
        without_tail(path) == path,
        last_segment(path) == name,
{
    let n = path.len() as int;
    assert(path[n - 1] == name[name.len() - 1]);
    if n > 1 && path.last() == '.' && path[n - 2] == '/' {
        if name.len() > 1 {
            assert(name[name.len() - 2] == path[n - 2]);
        } else {
            assert(name =~= seq!['.']);
        }
    }
    assert forall|k: int| from <= k < path.len() implies #[trigger] path[k] != '/' by {
        assert(path[k] == name[k - from]);
    }
    lemma_last_segment(path, from);
}

/// The name of a file is what stands behind the last slash of its path; slashes
/// at the end make no difference.
pub proof fn law_names_stand_last(directory: Seq<char>, name: Seq<char>)
    requires
        is_name(name),
    ensures
        name_of(name) == Some(name),
        name_of(in_directory(directory, name)) == Some(name),
        name_of(in_directory(directory, name).push('/')) == Some(name),
{
    let path = in_directory(directory, name);
    assert(path.skip(directory.len() as int + 1) =~= name);
    assert(path[directory.len() as int] == '/');
    lemma_no_tail(path, name, directory.len() as int + 1);
    assert(name.skip(0) =~= name);
    lemma_no_tail(name, name, 0);
    assert(path.push('/').drop_last() =~= path);
}

/// A name is parted at its last dot into a stem and an extension; one without a
/// dot behind its first character has no extension.
pub proof fn law_stem_and_extension(stem: Seq<char>, extension: Seq<char>, name: Seq<char>)
    requires
        stem.len() > 0,
        forall|i: int| 0 <= i < extension.len() ==> #[trigger] extension[i] != '.',
        forall|i: int| 0 < i < name.len() ==> #[trigger] name[i] != '.',
    ensures
        stem_of_name(stem.push('.') + extension) == stem,
        extension_of_name(stem.push('.') + extension) == Some(extension),
        stem_of_name(name) == name,
        extension_of_name(name) is None,
{
    let full = stem.push('.') + extension;
    let at = stem.len() as int;
    assert(full[at] == '.');
    assert forall|k: int| at < k < full.len() implies #[trigger] full[k] != '.' by {
        assert(full[k] == extension[k - at - 1]);
    }
    lemma_last_dot(full, at);
    assert(full.take(at) =~= stem);
    assert(full.skip(at + 1) =~= extension);
    lemma_no_dot(name);
}

proof fn lemma_no_dot(name: Seq<char>)
    requires
        forall|i: int| 0 < i < name.len() ==> #[trigger] name[i] != '.',
    ensures
        last_dot(name) <= 0,
    decreases name.len(),
{
    if name.len() > 0 {
        let rest = name.drop_last();
        assert forall|i: int| 0 < i < rest.len() implies #[trigger] rest[i] != '.' by {
            assert(name[i] != '.');
        }
        lemma_no_dot(rest);
    }
}

/// A file is an image by its extension, but for case.
pub proof fn law_images_by_extension(
    directory: Seq<char>,
    stem: Seq<char>,
    extension: Seq<char>,
)
    requires
        stem.len() > 0,
        is_name(stem.push('.') + extension),
        forall|i: int| 0 <= i < extension.len() ==> #[trigger] extension[i] != '.',
    ensures
        is_image(in_directory(directory, stem.push('.') + extension)) <==> {
            ||| same_ignoring_case(extension, "jpg"@)
            ||| same_ignoring_case(extension, "jpeg"@)
            ||| same_ignoring_case(extension, "png"@)
            ||| same_ignoring_case(extension, "webp"@)
            ||| same_ignoring_case(extension, "bmp"@)
            ||| same_ignoring_case(extension, "tiff"@)
        },
        stem_of(in_directory(directory, stem.push('.') + extension)) == Some(stem),
        extension_of(in_directory(directory, stem.push('.') + extension)) == Some(extension),
{
    law_names_stand_last(directory, stem.push('.') + extension);
    law_stem_and_extension(stem, extension, Seq::empty());
}

/// Another extension leaves the directory and the stem of a path.
pub proof fn law_extensions_are_exchanged(
    directory: Seq<char>,
    stem: Seq<char>,
    old_extension: Seq<char>,
    extension: Seq<char>,
)
    requires
        stem.len() > 0,
        is_name(stem.push('.') + old_extension),
        extension.len() > 0,
        forall|i: int| 0 <= i < old_extension.len() ==> #[trigger] old_extension[i] != '.',
    ensures
        extended(in_directory(directory, stem.push('.') + old_extension), extension)
            == in_directory(directory, stem.push('.') + extension),
{
    let name = stem.push('.') + old_extension;
    let path = in_directory(directory, name);
    law_names_stand_last(directory, name);
    law_stem_and_extension(stem, old_extension, Seq::empty());
    assert(path.skip(directory.len() as int + 1) =~= name);
    lemma_no_tail(path, name, directory.len() as int + 1);
    assert(path.take(path.len() - name.len()) =~= directory.push('/'));
    assert(directory.push('/') + stem.push('.') + extension =~= in_directory(
        directory,
        stem.push('.') + extension,
    ));
    assert((directory.push('/') + stem).push('.') + extension =~= in_directory(
        directory,
        stem.push('.') + extension,
    ));
}

/// The directory of a file is what stands before the last slash of its path.
pub proof fn law_parents_stand_before_names(directory: Seq<char>, name: Seq<char>)
    requires
        is_name(name),
        directory.len() > 0,
        without_tail(directory) == directory,
    ensures
        has_parent(in_directory(directory, name)),
        parent_of(in_directory(directory, name)) == directory,
{
    let path = in_directory(directory, name);
    assert(path.skip(directory.len() as int + 1) =~= name);
    lemma_no_tail(path, name, directory.len() as int + 1);
    assert(path.take(path.len() - name.len()) =~= directory.push('/'));
    assert(directory.push('/').drop_last() =~= directory);
}

/// A path is joined to a directory with one slash between them; one that begins
/// at the root stays as it is.
pub proof fn law_joined_paths(directory: Seq<char>, path: Seq<char>)
    ensures
        is_rooted(path) ==> joined_path(directory, path) == path,
        !is_rooted(path) && directory.len() > 0 && directory.last() != '/' ==> joined_path(
            directory,
            path,
        ) == in_directory(directory, path),
        !is_rooted(path) ==> joined_path(in_directory(directory, Seq::empty()), path)
            == in_directory(directory, path),
        directory.len() == 0 ==> joined_path(directory, path) == path,
{
    assert(in_directory(directory, Seq::empty()) =~= directory.push('/'));
}

// ----- Paths that name the same file ---------------------------------------

proof fn lemma_plain_add(a: Seq<Seq<char>>, b: Seq<Seq<char>>)
    ensures
        plain(a + b) == plain(a) + plain(b),
    decreases b.len(),
{
    if b.len() == 0 {
        assert(a + b =~= a);
        assert(plain(a) + plain(b) =~= plain(a));
    } else {
        assert((a + b).drop_last() =~= a + b.drop_last());
        assert((a + b).last() == b.last());
        lemma_plain_add(a, b.drop_last());
        assert(plain(a + b) =~= plain(a) + plain(b));
    }
}

/// A slash that is written twice, and a step that stays where it is, make no
/// difference to what a path names.
pub proof fn law_idle_steps_make_no_difference(a: Seq<char>, b: Seq<char>)
    requires
        a.len() > 0,
    ensures
        canonical(a.push('/').push('/') + b) == canonical(a.push('/') + b),
        canonical(a.push('/').push('.').push('/') + b) == canonical(a.push('/') + b),
        canonical(a.push('/')) == canonical(a),
{
    let kind = Separators::Slashes;
    let none = Seq::<char>::empty();
    let dot = seq!['.'];
    lemma_split_nonempty(kind, a);
    law_separator_parts_texts(kind, a, '/', b);
    law_separator_parts_texts(kind, a.push('/'), '/', b);
    law_separator_parts_texts(kind, a, '/', none);
    assert(a.push('/') + none =~= a.push('/'));
    let dotted = a.push('/').push('.');
    law_separator_parts_texts(kind, dotted, '/', b);
    law_separator_parts_texts(kind, a, '/', dot);
    assert(a.push('/') + dot =~= dotted);
    law_text_without_separator_is_whole(kind, dot);
    law_text_without_separator_is_whole(kind, none);
    let first = split(kind, a);
    let last = split(kind, b);
    lemma_plain_one(none);
    lemma_plain_one(dot);
    lemma_plain_add(first, last);
    lemma_plain_add(first + seq![none], last);
    lemma_plain_add(first, seq![none]);
    lemma_plain_add(first + seq![dot], last);
    lemma_plain_add(first, seq![dot]);
    assert(plain(first) + plain(seq![none]) =~= plain(first));
    assert(plain(first) + plain(seq![dot]) =~= plain(first));
    assert((a.push('/') + b)[0] == a[0]);
    assert((a.push('/').push('/') + b)[0] == a[0]);
    assert((dotted.push('/') + b)[0] == a[0]);
}

proof fn lemma_plain_one(segment: Seq<char>)
    ensures
        plain(seq![segment]) == if segment.len() == 0 || segment == seq!['.'] {
            Seq::<Seq<char>>::empty()
        } else {
            seq![segment]
        },
{
    assert(seq![segment].drop_last() =~= Seq::<Seq<char>>::empty());
    assert(plain(seq![segment].drop_last()) =~= Seq::<Seq<char>>::empty());
}

/// Whether every entry is a step of a path that goes somewhere.
pub open spec fn all_steps(segments: Seq<Seq<char>>) -> bool {
    forall|i: int|
        0 <= i < segments.len() ==> (#[trigger] segments[i]).len() > 0 && segments[i] != seq!['.']
            && forall|k: int| 0 <= k < segments[i].len() ==> #[trigger] segments[i][k] != '/'
}

proof fn lemma_steps(segments: Seq<Seq<char>>)
    requires
        all_steps(segments),
        segments.len() > 0,
    ensures
        split(Separators::Slashes, joined(segments, seq!['/'])) == segments,
        plain(segments) == segments,
        joined(segments, seq!['/']).len() > 0,
        joined(segments, seq!['/'])[0] == segments[0][0],
    decreases segments.len(),
{
    let last = segments.last();
    let less = segments.drop_last();
    assert(segments[segments.len() - 1] == last);
    law_text_without_separator_is_whole(Separators::Slashes, last);
    lemma_plain_one(last);
    assert(segments =~= less + seq![last]);
    lemma_plain_add(less, seq![last]);
    if less.len() == 0 {
        assert(segments =~= seq![last]);
        assert(joined(segments, seq!['/']) == last);
    } else {
        assert forall|i: int| 0 <= i < less.len() implies (#[trigger] less[i]).len() > 0 && less[i]
            != seq!['.'] && forall|k: int| 0 <= k < less[i].len() ==> #[trigger] less[i][k]
            != '/' by {
            assert(segments[i] == less[i]);
        }
        lemma_steps(less);
        let before = joined(less, seq!['/']);
        assert(joined(segments, seq!['/']) =~= before.push('/') + last);
        law_separator_parts_texts(Separators::Slashes, before, '/', last);
        assert(joined(segments, seq!['/'])[0] == before[0]);
    }
}

/// A path in which every step goes somewhere stands for itself: two such paths
/// name the same file only if they are equal.
pub proof fn law_plain_paths_stand_for_themselves(segments: Seq<Seq<char>>)
    requires
        all_steps(segments),
        segments.len() > 0,
    ensures
        canonical(joined(segments, seq!['/'])) == joined(segments, seq!['/']),
        canonical(seq!['/'] + joined(segments, seq!['/'])) == seq!['/'] + joined(
            segments,
            seq!['/'],
        ),
{
    let path = joined(segments, seq!['/']);
    let none = Seq::<char>::empty();
    lemma_steps(segments);
    assert(segments[0][0] != '/');
    assert(none.push('/') + path =~= seq!['/'] + path);
    law_separator_parts_texts(Separators::Slashes, none, '/', path);
    law_text_without_separator_is_whole(Separators::Slashes, none);
    lemma_plain_add(seq![none], segments);
    lemma_plain_one(none);
    assert(plain(seq![none]) + segments =~= segments);
}

/// A path that ends at a root, or with a step to where it is or back, has no name.
pub proof fn law_paths_without_a_name(directory: Seq<char>)
    ensures
        name_of(Seq::empty()) is None,
        name_of(seq!['/']) is None,
        name_of(seq!['.', '.']) is None,
        name_of(in_directory(directory, seq!['.', '.'])) is None,
{
    let none = Seq::<char>::empty();
    let back = seq!['.', '.'];
    assert(seq!['/'].drop_last() =~= none);
    assert(without_tail(none) == none);
    lemma_last_segment(none, 0);
    assert(none.skip(0) =~= none);
    assert(without_tail(back) == back);
    lemma_last_segment(back, 0);
    assert(back.skip(0) =~= back);
    let path = in_directory(directory, back);
    let from = directory.len() as int + 1;
    assert(path.last() == '.' && path[path.len() - 2] == '.');
    assert(path[from - 1] == '/');
    assert(path.skip(from) =~= back);
    lemma_last_segment(path, from);
}

/// The directory of a file at the root is the root, and that of a bare name is
/// the empty path.
pub proof fn law_parents_of_bare_names(name: Seq<char>)
    requires
        is_name(name),
    ensures
        parent_of(seq!['/'] + name) == seq!['/'],
        parent_of(name).len() == 0,
        has_parent(name),
        !has_parent(Seq::empty()),
        !has_parent(seq!['/']),
{
    let none = Seq::<char>::empty();
    let path = seq!['/'] + name;
    assert(path.skip(1) =~= name);
    lemma_no_tail(path, name, 1);
    assert(path.take(path.len() - name.len()) =~= seq!['/']);
    assert(seq!['/'].drop_last() =~= none);
    assert(without_tail(none) == none);
    assert(name.skip(0) =~= name);
    lemma_no_tail(name, name, 0);
    assert(name.take(0) =~= none);
}

/// An empty extension takes the extension away, and a path without a name stays
/// as it is.
pub proof fn law_extensions_are_taken_away(
    directory: Seq<char>,
    stem: Seq<char>,
    extension: Seq<char>,
    path: Seq<char>,
)
    requires
        stem.len() > 0,
        is_name(stem.push('.') + extension),
        forall|i: int| 0 <= i < extension.len() ==> #[trigger] extension[i] != '.',
        name_of(path) is None,
    ensures
        extended(in_directory(directory, stem.push('.') + extension), Seq::empty())
            == in_directory(directory, stem),
        extended(path, extension) == path,
{
    let name = stem.push('.') + extension;
    let whole = in_directory(directory, name);
    law_names_stand_last(directory, name);
    law_stem_and_extension(stem, extension, Seq::empty());
    assert(whole.skip(directory.len() as int + 1) =~= name);
    lemma_no_tail(whole, name, directory.len() as int + 1);
    assert(whole.take(whole.len() - name.len()) =~= directory.push('/'));
}

/// A step that stays where it is counts where it is the first: such a path is
/// told apart from the same one without it.
pub proof fn law_first_step_counts(segments: Seq<Seq<char>>)
    requires
        all_steps(segments),
        segments.len() > 0,
    ensures
        canonical(seq!['.', '/'] + joined(segments, seq!['/'])) == seq!['.', '/'] + joined(
            segments,
            seq!['/'],
        ),
{
    let path = joined(segments, seq!['/']);
    let dot = seq!['.'];
    lemma_steps(segments);
    assert(dot.push('/') + path =~= seq!['.', '/'] + path);
    law_separator_parts_texts(Separators::Slashes, dot, '/', path);
    law_text_without_separator_is_whole(Separators::Slashes, dot);
    lemma_plain_add(seq![dot], segments);
    lemma_plain_one(dot);
    assert(plain(seq![dot]) + segments =~= segments);
    law_glue_stands_between_parts(seq![dot], segments, seq!['/']);
    assert(dot + seq!['/'] + path =~= seq!['.', '/'] + path);
}

} // verus!
