//! Paths inside an EPUB archive and targets of Markdown links: plain text in
//! which `/` separates the segments, whatever the machine.

use vstd::prelude::*;

verus! {

/// The index of the last `mark` in `text`, or -1 where it holds none.
pub open spec fn last_position(text: Seq<char>, mark: char) -> int
    decreases text.len(),
{
    if text.len() == 0 {
        -1
    } else if text.last() == mark {
        text.len() - 1
    } else {
        last_position(text.drop_last(), mark)
    }
}

/// Where the final segment of `path` begins: just past its last `/`, or at 0.
pub open spec fn final_segment_start(path: Seq<char>) -> int {
    last_position(path, '/') + 1
}

/// The final segment of `path`: what follows its last `/`.
pub open spec fn file_name_of(path: Seq<char>) -> Seq<char> {
    path.subrange(final_segment_start(path), path.len() as int)
}

/// What stands before the final segment of `path`, its last `/` included.
pub open spec fn directory_of(path: Seq<char>) -> Seq<char> {
    path.subrange(0, final_segment_start(path))
}

/// Whether a segment names a file: it is neither empty nor `.` nor `..`.
pub open spec fn names_file(segment: Seq<char>) -> bool {
    segment.len() > 0 && segment != seq!['.'] && segment != seq!['.', '.']
}

/// How much of a file name is its stem: all of it where it holds no `.` or
/// only a leading one, else what stands before its last `.`.
pub open spec fn stem_len(name: Seq<char>) -> int {
    if last_position(name, '.') <= 0 {
        name.len() as int
    } else {
        last_position(name, '.')
    }
}

/// A file name without its extension.
pub open spec fn stem_of(name: Seq<char>) -> Seq<char> {
    name.subrange(0, stem_len(name))
}

/// A `.` and the extension, or nothing for the empty extension.
pub open spec fn dotted(extension: Seq<char>) -> Seq<char> {
    if extension.len() == 0 {
        extension
    } else {
        seq!['.'] + extension
    }
}

/// `path` with the extension of its final segment replaced. A path whose
/// final segment names no file stays as it is.
pub open spec fn path_with_extension(path: Seq<char>, extension: Seq<char>) -> Seq<char> {
    if names_file(file_name_of(path)) {
        directory_of(path) + stem_of(file_name_of(path)) + dotted(extension)
    } else {
        path
    }
}

/// `last_position` is the one index that holds the mark and has none behind it.
pub proof fn lemma_last_position(text: Seq<char>, mark: char)
    ensures
        -1 <= last_position(text, mark) < text.len(),
        last_position(text, mark) >= 0 ==> text[last_position(text, mark)] == mark,
        forall|i: int| last_position(text, mark) < i < text.len() ==> text[i] != mark,
    decreases text.len(),
{
    if text.len() > 0 && text.last() != mark {
        let front = text.drop_last();
        lemma_last_position(front, mark);
        assert forall|i: int| last_position(text, mark) < i < text.len() implies text[i]
            != mark by {
            if i < front.len() {
                assert(text[i] == front[i]);
            }
        }
    }
}

/// An index that holds the mark and has none behind it is the last position.
pub proof fn lemma_last_position_is(text: Seq<char>, mark: char, at: int)
    requires
        -1 <= at < text.len(),
        at >= 0 ==> text[at] == mark,
        forall|i: int| at < i < text.len() ==> text[i] != mark,
    ensures
        last_position(text, mark) == at,
{
    lemma_last_position(text, mark);
}

/// Replacing the extension touches the final segment alone: the directory
/// stays, and the new final segment is the old one with its extension replaced.
pub proof fn lemma_file_name_with_extension(path: Seq<char>, extension: Seq<char>)
    requires
        names_file(file_name_of(path)),
        extension.len() > 0,
        forall|i: int| 0 <= i < extension.len() ==> extension[i] != '/',
    ensures
        directory_of(path_with_extension(path, extension)) == directory_of(path),
        file_name_of(path_with_extension(path, extension)) == path_with_extension(
            file_name_of(path),
            extension,
        ),
        names_file(file_name_of(path_with_extension(path, extension))),
{
    let name = file_name_of(path);
    let renamed = path_with_extension(path, extension);
    let start = final_segment_start(path);
    lemma_last_position(path, '/');
    lemma_last_position(name, '.');
    assert forall|i: int| 0 <= i < name.len() implies name[i] != '/' by {
        assert(name[i] == path[start + i]);
    }
    lemma_last_position_is(name, '/', -1);
    assert(file_name_of(name) =~= name);
    assert(directory_of(name) =~= Seq::<char>::empty());
    assert(path_with_extension(name, extension) =~= stem_of(name) + dotted(extension));
    assert forall|i: int| start - 1 < i < renamed.len() implies renamed[i] != '/' by {
        if i < start + stem_len(name) {
            assert(renamed[i] == name[i - start]);
        } else if i > start + stem_len(name) {
            assert(renamed[i] == extension[i - start - stem_len(name) - 1]);
        }
    }
    if start > 0 {
        assert(renamed[start - 1] == path[start - 1]);
    }
    lemma_last_position_is(renamed, '/', start - 1);
    assert(directory_of(renamed) =~= directory_of(path));
    assert(file_name_of(renamed) =~= stem_of(name) + dotted(extension));
    let new_name = file_name_of(renamed);
    assert(new_name.len() >= 3);
}

/// The index of the last `mark` in `text`.
pub fn last_index_of(text: &str, mark: char) -> (found: Option<usize>)
    ensures
        match found {
            Some(i) => i == last_position(text@, mark),
            None => last_position(text@, mark) == -1,
        },
{
    let mut found: Option<usize> = None;
    let mut i: usize = 0;
    let count: usize = text.unicode_len();
    for c in it: text.chars()
        invariant
            i == it.index(),
            it.seq() == text@,
            count == text@.len(),
            i <= count,
            match found {
                Some(at) => at == last_position(text@.take(i as int), mark),
                None => last_position(text@.take(i as int), mark) == -1,
            },
    {
        assert(text@.take(i + 1).drop_last() == text@.take(i as int));
        if c == mark {
            found = Some(i);
        }
        i = i + 1;
    }
    assert(text@.take(i as int) == text@);
    found
}

/// The final segment of `path`.
pub fn file_name(path: &str) -> (name: String)
    ensures
        name@ == file_name_of(path@),
{
    let len: usize = path.unicode_len();
    proof {
        lemma_last_position(path@, '/');
    }
    let start: usize = match last_index_of(path, '/') {
        Some(slash) => slash + 1,
        None => 0,
    };
    String::from_str(path.substring_char(start, len))
}

/// Whether `segment` names a file.
pub fn is_file_name(segment: &str) -> (yes: bool)
    ensures
        yes == names_file(segment@),
{
    let len: usize = segment.unicode_len();
    if len == 0 {
        false
    } else if len == 1 {
        let only = segment.get_char(0);
        assert(segment@ =~= seq![only]);
        only != '.'
    } else if len == 2 {
        let first = segment.get_char(0);
        let second = segment.get_char(1);
        assert(segment@ =~= seq![first, second]);
        !(first == '.' && second == '.')
    } else {
        true
    }
}

/// `path` with the extension of its final segment replaced by `extension`,
/// or dropped where `extension` is empty.
pub fn with_extension(path: &str, extension: &str) -> (out: String)
    ensures
        out@ == path_with_extension(path@, extension@),
{
    let name = file_name(path);
    if !is_file_name(name.as_str()) {
        return String::from_str(path);
    }
    proof {
        lemma_last_position(path@, '/');
        lemma_last_position(name@, '.');
    }
    let len: usize = path.unicode_len();
    let name_len: usize = name.as_str().unicode_len();
    let stem: usize = match last_index_of(name.as_str(), '.') {
        Some(dot) => if dot == 0 {
            name_len
        } else {
            dot
        },
        None => name_len,
    };
    let kept: usize = len - name_len + stem;
    let mut out = String::from_str(path.substring_char(0, kept));
    assert(out@ =~= directory_of(path@) + stem_of(file_name_of(path@)));
    if extension.unicode_len() > 0 {
        proof {
            reveal_strlit(".");
        }
        out.append(".");
        out.append(extension);
        assert("."@ =~= seq!['.']);
    }
    assert(out@ =~= path_with_extension(path@, extension@));
    out
}

} // verus!
