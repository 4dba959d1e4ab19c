//! Paths of output files.

use vstd::prelude::*;
use crate::columns;
use crate::json;

verus! {

/// The place of the last occurrence of a character, or -1.
pub open spec fn last_place(s: Seq<char>, c: char) -> int
    decreases s.len(),
{
    if s.len() == 0 {
        -1
    } else if s.last() == c {
        s.len() - 1
    } else {
        last_place(s.drop_last(), c)
    }
}

/// A path without the slashes and the single dots behind its last part.
pub open spec fn trimmed(path: Seq<char>) -> Seq<char>
    decreases path.len(),
{
    let n = path.len() as int;
    if n > 0 && (path[n - 1] == '/' || (n > 1 && path[n - 1] == '.' && path[n - 2] == '/')) {
        trimmed(path.drop_last())
    } else {
        path
    }
}

/// The directory of a path, with the slash behind it.
pub open spec fn directory(path: Seq<char>) -> Seq<char> {
    trimmed(path).take(last_place(trimmed(path), '/') + 1)
}

/// The last part of a path.
pub open spec fn file_name(path: Seq<char>) -> Seq<char> {
    trimmed(path).skip(last_place(trimmed(path), '/') + 1)
}

/// Whether a path can be that of a file: its last part is there and does not
/// stand for a directory.
pub open spec fn names_a_file(path: Seq<char>) -> bool {
    file_name(path).len() > 0 && file_name(path) != "."@ && file_name(path) != ".."@
}

/// A file name without its extension. A dot at its start begins none.
pub open spec fn stem(name: Seq<char>) -> Seq<char> {
    if last_place(name, '.') > 0 {
        name.take(last_place(name, '.'))
    } else {
        name
    }
}

/// The path of the metadata that go with an output file: beside it, under its
/// stem.
pub open spec fn metadata_of(path: Seq<char>) -> Seq<char> {
    directory(path) + stem(file_name(path)) + "_metadata.jsonl"@
}

/// The place behind the last occurrence of a character, or 0.
fn past_last(s: &str, c: char) -> (r: usize)
    ensures
        r == last_place(s@, c) + 1,
        r <= s@.len(),
{
    let n: usize = s.unicode_len();
    let mut r: usize = 0;
    let mut i: usize = 0;
    while i < n
        invariant
            i <= n,
            n == s@.len(),
            r <= i,
            r == last_place(s@.take(i as int), c) + 1,
        decreases n - i,
    {
        let x: char = s.get_char(i);
        i += 1;
        assert(s@.take(i as int).drop_last() =~= s@.take(i - 1));
        if x == c {
            r = i;
        }
    }
    assert(s@.take(i as int) =~= s@);
    r
}

fn trim(path: &str) -> (r: String)
    ensures
        r@ == trimmed(path@),
{
    let mut end: usize = path.unicode_len();
    assert(path@.take(end as int) =~= path@);
    while end > 0 && (path.get_char(end - 1) == '/' || (end > 1 && path.get_char(end - 1) == '.'
        && path.get_char(end - 2) == '/'))
        invariant
            end <= path@.len(),
            trimmed(path@.take(end as int)) == trimmed(path@),
        decreases end,
    {
        assert(path@.take(end as int).drop_last() =~= path@.take(end - 1));
        end -= 1;
    }
    path.substring_char(0, end).to_string()
}

pub(crate) fn get_file_name(path: &str) -> (r: String)
    ensures
        r@ == file_name(path@),
{
    let name: String = trim(path);
    let start: usize = past_last(name.as_str(), '/');
    let n: usize = name.as_str().unicode_len();
    name.as_str().substring_char(start, n).to_string()
}

pub(crate) fn get_stem(name: &str) -> (r: String)
    ensures
        r@ == stem(name@),
{
    let end: usize = past_last(name, '.');
    if end > 1 {
        name.substring_char(0, end - 1).to_string()
    } else {
        name.to_string()
    }
}

/// Whether a path can be that of a file.
pub fn is_file_path(path: &str) -> (r: bool)
    ensures
        r == names_a_file(path@),
{
    let name: String = get_file_name(path);
    name.as_str().unicode_len() > 0 && !columns::string_eq(&name, ".") && !columns::string_eq(
        &name,
        "..",
    )
}

/// The path of the metadata that go with an output file.
pub fn metadata_path(output_path: &str) -> (r: String)
    requires
        names_a_file(output_path@),
    ensures
        r@ == metadata_of(output_path@),
{
    let base: String = trim(output_path);
    let start: usize = past_last(base.as_str(), '/');
    let mut out: String = base.as_str().substring_char(0, start).to_string();
    let name: String = get_file_name(output_path);
    out.append(get_stem(name.as_str()).as_str());
    out.append("_metadata.jsonl");
    assert(out@ =~= metadata_of(output_path@));
    out
}

/// The error about an output file that is there already.
pub open spec fn output_exists() -> Seq<char> {
    "Output file already exists. Use --overwrite-output to replace it."@
}

/// Whether an output file may be written: it is not there yet, or may be
/// overwritten.
pub fn assert_can_write_output(exists: bool, overwrite_output: bool) -> (r: Result<(), String>)
    ensures
        exists && !overwrite_output ==> (r matches Err(e) && e@ == output_exists()),
        !(exists && !overwrite_output) ==> r is Ok,
{
    if exists && !overwrite_output {
        Err("Output file already exists. Use --overwrite-output to replace it.".to_string())
    } else {
        Ok(())
    }
}

/// The place of the first slash from `i` on, or the end.
pub open spec fn next_slash(s: Seq<char>, i: int) -> int
    decreases s.len() - i,
{
    if 0 <= i < s.len() && s[i] != '/' {
        next_slash(s, i + 1)
    } else {
        i
    }
}

/// The parts of a path from `i` on. Empty parts and later single dots fall
/// away.
pub open spec fn parts_from(s: Seq<char>, i: int) -> Seq<Seq<char>>
    decreases s.len() + 1 - i,
{
    if 0 <= i < s.len() {
        let end = next_slash(s, i);
        let part = s.subrange(i, end);
        proof {
            next_slash_moves_on(s, i);
        }
        let rest = parts_from(s, end + 1);
        if part.len() == 0 || (part == "."@ && i > 0) {
            rest
        } else {
            seq![part] + rest
        }
    } else {
        Seq::empty()
    }
}

/// The first slash from a place on is within the text or at its end.
pub proof fn next_slash_moves_on(s: Seq<char>, i: int)
    requires
        0 <= i <= s.len(),
    ensures
        i <= next_slash(s, i) <= s.len(),
    decreases s.len() - i,
{
    if i < s.len() && s[i] != '/' {
        next_slash_moves_on(s, i + 1);
    }
}

/// Whether a path begins at the root.
pub open spec fn is_absolute(s: Seq<char>) -> bool {
    s.len() > 0 && s[0] == '/'
}

/// Whether two paths have the same parts.
pub open spec fn same_parts(a: Seq<char>, b: Seq<char>) -> bool {
    is_absolute(a) == is_absolute(b) && parts_from(a, 0) == parts_from(b, 0)
}

fn path_parts(path: &str) -> (r: Vec<String>)
    ensures
        crate::vectors::texts(r@) == parts_from(path@, 0),
{
    let n: usize = path.unicode_len();
    let mut out: Vec<String> = Vec::new();
    let mut i: usize = 0;
    assert(crate::vectors::texts(out@) + parts_from(path@, 0) =~= parts_from(path@, 0));
    while i < n
        invariant
            n == path@.len(),
            i <= n + 1,
            crate::vectors::texts(out@) + parts_from(path@, i as int) == parts_from(path@, 0),
        decreases n + 1 - i,
    {
        let mut end: usize = i;
        while end < n && path.get_char(end) != '/'
            invariant
                i <= end <= n,
                n == path@.len(),
                next_slash(path@, i as int) == next_slash(path@, end as int),
            decreases n - end,
        {
            end += 1;
        }
        let part: String = path.substring_char(i, end).to_string();
        let ghost before = crate::vectors::texts(out@);
        let ghost rest = parts_from(path@, end + 1);
        assert(part@ == path@.subrange(i as int, next_slash(path@, i as int)));
        let dropped: bool = part.as_str().unicode_len() == 0 || (i > 0 && columns::string_eq(
            &part,
            ".",
        ));
        if !dropped {
            let ghost text = part@;
            out.push(part);
            assert(crate::vectors::texts(out@) =~= before.push(text));
            assert(before.push(text) + rest =~= before + (seq![text] + rest));
        }
        if end < n {
            i = end + 1;
        } else {
            i = n;
            assert(parts_from(path@, n as int) =~= Seq::<Seq<char>>::empty());
            assert(parts_from(path@, n + 1) =~= Seq::<Seq<char>>::empty());
        }
    }
    assert(parts_from(path@, i as int) =~= Seq::<Seq<char>>::empty());
    assert(crate::vectors::texts(out@) + Seq::<Seq<char>>::empty() =~= crate::vectors::texts(out@));
    out
}

fn begins_at_root(path: &str) -> (r: bool)
    ensures
        r == is_absolute(path@),
{
    path.unicode_len() > 0 && path.get_char(0) == '/'
}

/// Whether two paths have the same parts.
pub fn same_path(a: &str, b: &str) -> (r: bool)
    ensures
        r == same_parts(a@, b@),
{
    if begins_at_root(a) != begins_at_root(b) {
        return false;
    }
    let x: Vec<String> = path_parts(a);
    let y: Vec<String> = path_parts(b);
    let ghost left = parts_from(a@, 0);
    let ghost right = parts_from(b@, 0);
    if x.len() != y.len() {
        assert(left.len() != right.len());
        return false;
    }
    let mut i: usize = 0;
    while i < x.len()
        invariant
            i <= x.len(),
            x.len() == y.len(),
            left == parts_from(a@, 0),
            right == parts_from(b@, 0),
            is_absolute(a@) == is_absolute(b@),
            left == crate::vectors::texts(x@),
            right == crate::vectors::texts(y@),
            forall|j: int| 0 <= j < i ==> #[trigger] left[j] == right[j],
        decreases x.len() - i,
    {
        if !columns::string_eq(&x[i], y[i].as_str()) {
            assert(left[i as int] != right[i as int]);
            return false;
        }
        i += 1;
    }
    assert(left =~= right);
    true
}

/// Where the metadata of an optimizer run go: beside the plans, or else beside
/// the scores. A bundle holds its metadata itself.
pub open spec fn metadata_base(
    output_file: Option<Seq<char>>,
    scores_output_file: Option<Seq<char>>,
    is_bendl: bool,
) -> Option<Seq<char>> {
    if is_bendl {
        None
    } else {
        match output_file {
            Some(path) => Some(metadata_of(path)),
            None => match scores_output_file {
                Some(path) => Some(metadata_of(path)),
                None => None,
            },
        }
    }
}

/// Whether an optional path has the same parts as another.
pub open spec fn collides(file: Option<Seq<char>>, path: Seq<char>) -> bool {
    file matches Some(file) && same_parts(file, path)
}

/// What is wrong with the output paths of an optimizer, if anything is.
pub open spec fn paths_error(
    output_file: Option<Seq<char>>,
    scores_output_file: Option<Seq<char>>,
    is_bendl: bool,
) -> Option<Seq<char>> {
    if output_file matches Some(path) && collides(scores_output_file, path) {
        Some("Parameter error: '--output-file' and '--scores-output-file' must be different."@)
    } else if metadata_base(output_file, scores_output_file, is_bendl) matches Some(path) && (
    collides(output_file, path) || collides(scores_output_file, path)) {
        Some("Parameter error: derived metadata path conflicts with an output path."@)
    } else {
        None
    }
}

/// The text of an optional path.
pub open spec fn opt_view(path: Option<&str>) -> Option<Seq<char>> {
    match path {
        Some(path) => Some(path@),
        None => None,
    }
}

fn path_collides(file: Option<&str>, path: &str) -> (r: bool)
    ensures
        r == collides(opt_view(file), path@),
{
    match file {
        Some(file) => same_path(file, path),
        None => false,
    }
}

/// Plans the output paths of an optimizer: where the metadata go, if they go
/// to a file. No two of the paths may be the same.
pub fn plan_optimizer_output_paths(
    output_file: Option<&str>,
    scores_output_file: Option<&str>,
    is_bendl: bool,
) -> (r: Result<Option<String>, String>)
    requires
        output_file matches Some(path) ==> names_a_file(path@),
        scores_output_file matches Some(path) ==> names_a_file(path@),
    ensures
        match paths_error(opt_view(output_file), opt_view(scores_output_file), is_bendl) {
            Some(message) => r matches Err(e) && e@ == message,
            None => r matches Ok(path) && json::opt_text(path) == metadata_base(
                opt_view(output_file),
                opt_view(scores_output_file),
                is_bendl,
            ),
        },
{
    let metadata: Option<String> = if is_bendl {
        None
    } else {
        match output_file {
            Some(path) => Some(metadata_path(path)),
            None => match scores_output_file {
                Some(path) => Some(metadata_path(path)),
                None => None,
            },
        }
    };
    if let Some(path) = output_file {
        if path_collides(scores_output_file, path) {
            return Err(
                "Parameter error: '--output-file' and '--scores-output-file' must be different.".to_string(),
            );
        }
    }
    if let Some(path) = &metadata {
        if path_collides(output_file, path.as_str()) || path_collides(
            scores_output_file,
            path.as_str(),
        ) {
            return Err(
                "Parameter error: derived metadata path conflicts with an output path.".to_string(),
            );
        }
    }
    Ok(metadata)
}

} // verus!
