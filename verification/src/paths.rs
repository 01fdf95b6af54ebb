//! Paths as text, with `/` between their components.

use vstd::prelude::*;
use vstd::string::*;

use crate::text::{
    chars_of, eq_ignore_ascii_case, group_texts, join, joined, lemma_split_nonempty,
    same_ignoring_case, same_text, split, split_text, string_of, string_of_all, texts, Separators,
};

verus! {

/// A path without the slashes and the `.` components at its end.
pub open spec fn without_tail(path: Seq<char>) -> Seq<char>
    decreases path.len(),
{
    let n = path.len();
    if n > 0 && path.last() == '/' {
        without_tail(path.drop_last())
    } else if n > 1 && path.last() == '.' && path[n - 2] == '/' {
        without_tail(path.drop_last())
    } else {
        path
    }
}

/// What stands behind the last slash of a path.
pub open spec fn last_segment(path: Seq<char>) -> Seq<char>
    decreases path.len(),
{
    if path.len() == 0 || path.last() == '/' {
        Seq::<char>::empty()
    } else {
        last_segment(path.drop_last()).push(path.last())
    }
}

/// The name of the file or directory that a path leads to: its last component,
/// unless that is the root, `.` or `..`.
pub open spec fn name_of(path: Seq<char>) -> Option<Seq<char>> {
    let name = last_segment(without_tail(path));
    if name.len() == 0 || name == seq!['.'] || name == seq!['.', '.'] {
        None
    } else {
        Some(name)
    }
}

/// The place of the last dot of a text, or -1.
pub open spec fn last_dot(name: Seq<char>) -> int
    decreases name.len(),
{
    if name.len() == 0 {
        -1
    } else if name.last() == '.' {
        name.len() - 1
    } else {
        last_dot(name.drop_last())
    }
}

/// A file name without its extension. A dot at the start begins no extension.
pub open spec fn stem_of_name(name: Seq<char>) -> Seq<char> {
    if last_dot(name) <= 0 {
        name
    } else {
        name.take(last_dot(name))
    }
}

/// The extension of a file name.
pub open spec fn extension_of_name(name: Seq<char>) -> Option<Seq<char>> {
    if last_dot(name) <= 0 {
        None
    } else {
        Some(name.skip(last_dot(name) + 1))
    }
}

/// The file name of a path without its extension.
pub open spec fn stem_of(path: Seq<char>) -> Option<Seq<char>> {
    match name_of(path) {
        Some(name) => Some(stem_of_name(name)),
        None => None,
    }
}

/// The extension of the file name of a path.
pub open spec fn extension_of(path: Seq<char>) -> Option<Seq<char>> {
    match name_of(path) {
        Some(name) => extension_of_name(name),
        None => None,
    }
}

/// A path with another extension. An empty extension is left off with its dot.
pub open spec fn extended(path: Seq<char>, extension: Seq<char>) -> Seq<char> {
    match name_of(path) {
        Some(name) => {
            let body = without_tail(path);
            let base = body.take(body.len() - name.len()) + stem_of_name(name);
            if extension.len() == 0 {
                base
            } else {
                base.push('.') + extension
            }
        },
        None => path,
    }
}

/// Whether a path has a last component that is not the root.
pub open spec fn has_parent(path: Seq<char>) -> bool {
    without_tail(path).len() > 0
}

/// The path of the directory that a path's last component is in, empty where
/// the path has only that component.
pub open spec fn parent_of(path: Seq<char>) -> Seq<char> {
    let body = without_tail(path);
    let parent = without_tail(body.take(body.len() - last_segment(body).len()));
    if parent.len() == 0 && is_rooted(path) {
        seq!['/']
    } else {
        parent
    }
}

/// Whether a path starts at the root.
pub open spec fn is_rooted(path: Seq<char>) -> bool {
    path.len() > 0 && path[0] == '/'
}

/// `path` seen from `base`.
pub open spec fn joined_path(base: Seq<char>, path: Seq<char>) -> Seq<char> {
    if is_rooted(path) || base.len() == 0 {
        path
    } else if base.last() == '/' {
        base + path
    } else {
        base.push('/') + path
    }
}

/// The segments that are components: neither empty nor `.`.
pub open spec fn plain(segments: Seq<Seq<char>>) -> Seq<Seq<char>>
    decreases segments.len(),
{
    if segments.len() == 0 {
        Seq::<Seq<char>>::empty()
    } else {
        let rest = plain(segments.drop_last());
        let last = segments.last();
        if last.len() == 0 || last == seq!['.'] {
            rest
        } else {
            rest.push(last)
        }
    }
}

/// The shortest spelling of a path: repeated slashes, slashes at the end and
/// `.` components left out, but for a `.` at the start. Two spellings are the
/// same path where their shortest spellings are equal.
pub open spec fn canonical(path: Seq<char>) -> Seq<char> {
    let segments = split(Separators::Slashes, path);
    let body = plain(segments);
    if is_rooted(path) {
        seq!['/'] + joined(body, seq!['/'])
    } else if segments[0] == seq!['.'] {
        joined(seq![seq!['.']] + body, seq!['/'])
    } else {
        joined(body, seq!['/'])
    }
}

// ----- Functions -----------------------------------------------------------

/// What stands behind a slash, up to the end, is the last segment.
pub proof fn lemma_last_segment(path: Seq<char>, from: int)
    requires
        0 <= from <= path.len(),
        from > 0 ==> path[from - 1] == '/',
        forall|i: int| from <= i < path.len() ==> path[i] != '/',
    ensures
        last_segment(path) == path.skip(from),
    decreases path.len() - from,
{
    if from == path.len() {
        assert(path.skip(from) =~= Seq::<char>::empty());
    } else {
        lemma_last_segment(path.drop_last(), from);
        assert(path.drop_last().skip(from).push(path.last()) =~= path.skip(from));
    }
}

/// A dot with none behind it is the last one.
pub proof fn lemma_last_dot(name: Seq<char>, at: int)
    requires
        -1 <= at < name.len(),
        at >= 0 ==> name[at] == '.',
        forall|i: int| at < i < name.len() ==> name[i] != '.',
    ensures
        last_dot(name) == at,
    decreases name.len() - at,
{
    if name.len() > at + 1 {
        lemma_last_dot(name.drop_last(), at);
    }
}

/// Where the last segment of a path begins and ends, in characters.
fn segment_bounds(chars: &Vec<char>) -> (bounds: (usize, usize))
    ensures
        bounds.0 <= bounds.1 <= chars@.len(),
        without_tail(chars@) == chars@.take(bounds.1 as int),
        last_segment(without_tail(chars@)) == chars@.subrange(bounds.0 as int, bounds.1 as int),
{
    let mut to: usize = chars.len();
    assert(chars@.take(to as int) =~= chars@);
    while to > 0 && (chars[to - 1] == '/' || (to > 1 && chars[to - 1] == '.' && chars[to - 2]
        == '/'))
        invariant
            to <= chars@.len(),
            without_tail(chars@) == without_tail(chars@.take(to as int)),
        decreases to,
    {
        assert(chars@.take(to as int).drop_last() =~= chars@.take(to - 1));
        to = to - 1;
    }
    let ghost body = chars@.take(to as int);
    assert(without_tail(chars@) == body);
    let mut from: usize = to;
    while from > 0 && chars[from - 1] != '/'
        invariant
            from <= to <= chars@.len(),
            body == chars@.take(to as int),
            forall|i: int| from <= i < to ==> body[i] != '/',
        decreases from,
    {
        from = from - 1;
    }
    proof {
        lemma_last_segment(body, from as int);
        assert(body.skip(from as int) =~= chars@.subrange(from as int, to as int));
    }
    (from, to)
}

/// Where the file name of a path begins and ends, in characters.
fn name_bounds(chars: &Vec<char>) -> (bounds: Option<(usize, usize)>)
    ensures
        bounds is None <==> name_of(chars@) is None,
        bounds matches Some((from, to)) ==> {
            &&& from < to <= chars@.len()
            &&& without_tail(chars@) == chars@.take(to as int)
            &&& name_of(chars@) == Some(chars@.subrange(from as int, to as int))
        },
{
    let (from, to) = segment_bounds(chars);
    let ghost name = chars@.subrange(from as int, to as int);
    let length: usize = to - from;
    if length == 0 {
        None
    } else if length == 1 && chars[from] == '.' {
        assert(name =~= seq!['.']);
        None
    } else if length == 2 && chars[from] == '.' && chars[from + 1] == '.' {
        assert(name =~= seq!['.', '.']);
        None
    } else {
        proof {
            if name == seq!['.'] {
                assert(name[0] == '.');
            }
            if name == seq!['.', '.'] {
                assert(name[0] == '.' && name[1] == '.');
            }
        }
        Some((from, to))
    }
}

/// The place behind the stem of the name `from..to`: its last dot, unless it
/// begins the name, or the end of the name.
fn stem_end(chars: &Vec<char>, from: usize, to: usize) -> (end: usize)
    requires
        from < to <= chars@.len(),
    ensures
        from < end <= to,
        ({
            let name = chars@.subrange(from as int, to as int);
            if last_dot(name) <= 0 {
                end == to
            } else {
                end == from + last_dot(name) && end < to
            }
        }),
{
    let ghost name = chars@.subrange(from as int, to as int);
    let mut at: usize = to;
    while at > from && chars[at - 1] != '.'
        invariant
            from <= at <= to <= chars@.len(),
            name == chars@.subrange(from as int, to as int),
            forall|i: int| at - from <= i < name.len() ==> name[i] != '.',
        decreases at,
    {
        at = at - 1;
    }
    proof {
        lemma_last_dot(name, at - from - 1);
    }
    if at <= from + 1 {
        to
    } else {
        at - 1
    }
}

/// The name of the file or directory that a path leads to.
pub fn file_name(path: &str) -> (name: Option<String>)
    ensures
        match name {
            Some(name) => name_of(path@) == Some(name@),
            None => name_of(path@) is None,
        },
{
    let chars = chars_of(path);
    match name_bounds(&chars) {
        Some((from, to)) => Some(string_of(&chars, from, to)),
        None => None,
    }
}

/// The file name of a path without its extension.
pub fn file_stem(path: &str) -> (stem: Option<String>)
    ensures
        match stem {
            Some(stem) => stem_of(path@) == Some(stem@),
            None => stem_of(path@) is None,
        },
{
    let chars = chars_of(path);
    match name_bounds(&chars) {
        Some((from, to)) => {
            let end = stem_end(&chars, from, to);
            let ghost name = chars@.subrange(from as int, to as int);
            assert(chars@.subrange(from as int, end as int) =~= stem_of_name(name));
            Some(string_of(&chars, from, end))
        },
        None => None,
    }
}

/// The extension of the file name of a path.
pub fn extension(path: &str) -> (extension: Option<String>)
    ensures
        match extension {
            Some(extension) => extension_of(path@) == Some(extension@),
            None => extension_of(path@) is None,
        },
{
    let chars = chars_of(path);
    match name_bounds(&chars) {
        Some((from, to)) => {
            let end = stem_end(&chars, from, to);
            let ghost name = chars@.subrange(from as int, to as int);
            if end == to {
                None
            } else {
                assert(chars@.subrange(end + 1, to as int) =~= name.skip(last_dot(name) + 1));
                Some(string_of(&chars, end + 1, to))
            }
        },
        None => None,
    }
}

/// A path with another extension.
pub fn with_extension(path: &str, extension: &str) -> (result: String)
    ensures
        result@ == extended(path@, extension@),
{
    let chars = chars_of(path);
    match name_bounds(&chars) {
        Some((from, to)) => {
            let end = stem_end(&chars, from, to);
            let mut result = string_of(&chars, 0, end);
            proof {
                let name = chars@.subrange(from as int, to as int);
                let body = without_tail(chars@);
                assert(result@ =~= body.take(body.len() - name.len()) + stem_of_name(name));
            }
            if !extension.is_empty() {
                result.push('.');
                result.append(extension);
            }
            result
        },
        None => string_of_all(&chars),
    }
}

/// The path of the directory that a path's last component is in. There is none
/// where the path is empty or the root.
pub fn parent(path: &str) -> (result: Option<String>)
    ensures
        match result {
            Some(parent) => has_parent(path@) && parent@ == parent_of(path@),
            None => !has_parent(path@),
        },
{
    let chars = chars_of(path);
    let (from, to) = segment_bounds(&chars);
    if to == 0 {
        return None;
    }
    let ghost body = chars@.take(to as int);
    let ghost directory = chars@.take(from as int);
    assert(body.take(body.len() - (to - from)) =~= directory);
    let mut end: usize = from;
    while end > 0 && (chars[end - 1] == '/' || (end > 1 && chars[end - 1] == '.' && chars[end - 2]
        == '/'))
        invariant
            end <= from <= chars@.len(),
            directory == chars@.take(from as int),
            without_tail(directory) == without_tail(chars@.take(end as int)),
        decreases end,
    {
        assert(chars@.take(end as int).drop_last() =~= chars@.take(end - 1));
        end = end - 1;
    }
    assert(without_tail(directory) == chars@.take(end as int));
    if end == 0 && chars[0] == '/' {
        let mut root = String::new();
        root.push('/');
        assert(root@ =~= seq!['/']);
        Some(root)
    } else {
        let result = string_of(&chars, 0, end);
        assert(result@ =~= chars@.take(end as int));
        Some(result)
    }
}

/// Whether a path starts at the root.
pub fn rooted(path: &str) -> (yes: bool)
    ensures
        yes == is_rooted(path@),
{
    let chars = chars_of(path);
    chars.len() > 0 && chars[0] == '/'
}

/// `path` seen from `base`.
pub fn join_path(base: &str, path: &str) -> (result: String)
    ensures
        result@ == joined_path(base@, path@),
{
    if rooted(path) || base.is_empty() {
        return path.to_owned();
    }
    let chars = chars_of(base);
    let mut result = base.to_owned();
    if chars[chars.len() - 1] != '/' {
        result.push('/');
    }
    result.append(path);
    result
}

/// The shortest spelling of a path.
pub fn canonical_path(path: &str) -> (result: String)
    ensures
        result@ == canonical(path@),
{
    broadcast use group_texts;

    proof {
        reveal_strlit("/");
        reveal_strlit(".");
        assert("/"@ =~= seq!['/']);
        assert("."@ =~= seq!['.']);
        lemma_split_nonempty(Separators::Slashes, path@);
    }
    let segments = split_text(path, Separators::Slashes);
    let ghost all = texts(segments@);
    let mut body: Vec<String> = Vec::new();
    let from_root = rooted(path);
    if !from_root && same_text(segments[0].as_str(), ".") {
        body.push(".".to_owned());
    }
    let ghost start = texts(body@);
    assert(start + plain(all.take(0)) =~= start);
    for i in 0..segments.len()
        invariant
            all == texts(segments@),
            "."@ == seq!['.'],
            texts(body@) == start + plain(all.take(i as int)),
    {
        assert(all.take(i + 1).drop_last() =~= all.take(i as int));
        assert(all.take(i + 1).last() == segments@[i as int]@);
        let segment = segments[i].as_str();
        if !segment.is_empty() && !same_text(segment, ".") {
            let ghost before = body@;
            body.push(segments[i].clone());
            assert(texts(body@) == texts(before).push(all[i as int]));
        }
        assert(texts(body@) =~= start + plain(all.take(i + 1)));
    }
    assert(all.take(segments@.len() as int) =~= all);
    let tail = join(&body, "/");
    if from_root {
        assert(texts(body@) =~= plain(all));
        let mut result = "/".to_owned();
        result.append(tail.as_str());
        result
    } else {
        proof {
            if all[0] == seq!['.'] {
                assert(start =~= seq![seq!['.']]);
            } else {
                assert(texts(body@) =~= plain(all));
            }
        }
        tail
    }
}

// ----- Images --------------------------------------------------------------

/// Whether an extension is one of the image formats of a dataset.
pub open spec fn is_image_extension(extension: Seq<char>) -> bool {
    ||| same_ignoring_case(extension, "jpg"@)
    ||| same_ignoring_case(extension, "jpeg"@)
    ||| same_ignoring_case(extension, "png"@)
    ||| same_ignoring_case(extension, "webp"@)
    ||| same_ignoring_case(extension, "bmp"@)
    ||| same_ignoring_case(extension, "tiff"@)
}

/// Whether a path names an image of a dataset.
pub open spec fn is_image(path: Seq<char>) -> bool {
    match extension_of(path) {
        Some(extension) => is_image_extension(extension),
        None => false,
    }
}

/// Whether a path names an image of a dataset.
pub fn is_supported_image(path: &str) -> (yes: bool)
    ensures
        yes == is_image(path@),
{
    match extension(path) {
        Some(extension) => {
            let found = extension.as_str();
            eq_ignore_ascii_case(found, "jpg") || eq_ignore_ascii_case(found, "jpeg")
                || eq_ignore_ascii_case(found, "png") || eq_ignore_ascii_case(found, "webp")
                || eq_ignore_ascii_case(found, "bmp") || eq_ignore_ascii_case(found, "tiff")
        },
        None => false,
    }
}

} // verus!
