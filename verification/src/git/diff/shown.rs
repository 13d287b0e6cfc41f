//! What a diff shows of a file.

use vstd::prelude::*;
use vstd::string::*;

use crate::git::diff::{is_binary, tracked_diff, untracked_diff};
use crate::model::numbering::the_mark_says_what_a_line_is;
use crate::model::{read_as, DiffLineKind, DiffView, LineView};
use crate::text::{has_text, lines_of, occurs_at};

verus! {

/// Whether a diff shows a file as added whole: two lines that name it, and then
/// every line of it in turn, each behind a `+`. A line that itself looks like the
/// end of a file's name is taken for one.
pub open spec fn shown_as_new(lines: Seq<LineView>, file: Seq<Seq<char>>) -> bool {
    &&& lines.len() == file.len() + 2
    &&& lines[0].kind == DiffLineKind::Header
    &&& lines[1].kind == DiffLineKind::Header
    &&& forall|i: int|
        0 <= i < file.len() ==> {
            &&& (#[trigger] lines[i + 2]).text.len() > 0
            &&& lines[i + 2].text[0] == '+'
            &&& lines[i + 2].text.skip(1) == file[i]
            &&& lines[i + 2].kind == if "++ "@.is_prefix_of(file[i]) {
                DiffLineKind::Header
            } else {
                DiffLineKind::Added
            }
        }
}

/// A file that git does not know yet is shown as added whole: as many added lines
/// as it has, and each of them as it is. A file without lines shows nothing.
pub proof fn a_new_file_is_shown_as_added(path: Seq<char>, text: Seq<char>)
    ensures
        match untracked_diff(path, text) {
            DiffView::Text(lines) => lines_of(text).len() > 0 && shown_as_new(lines, lines_of(text))
                && lines[0].text == "--- /dev/null"@ && lines[1].text == "+++ b/"@ + path,
            DiffView::Empty => lines_of(text).len() == 0,
            DiffView::Binary => false,
            DiffView::Deleted => false,
        },
{
    let file = lines_of(text);
    reveal_strlit("--- /dev/null");
    reveal_strlit("+++ b/");
    reveal_strlit("++ ");
    reveal_strlit("-- ");
    let first = "--- /dev/null"@;
    let second = "+++ b/"@ + path;
    assert(first =~= seq!['-'] + first.skip(1));
    assert(second =~= seq!['+'] + second.skip(1));
    assert(first.skip(1).subrange(0, 3) =~= "-- "@);
    assert(second.skip(1).subrange(0, 3) =~= "++ "@);
    the_mark_says_what_a_line_is('-', first.skip(1));
    the_mark_says_what_a_line_is('+', second.skip(1));
    if let DiffView::Text(lines) = untracked_diff(path, text) {
        assert(lines[0] == read_as(first));
        assert(lines[1] == read_as(second));
        assert forall|i: int| 0 <= i < file.len() implies {
            &&& (#[trigger] lines[i + 2]).text.len() > 0
            &&& lines[i + 2].text[0] == '+'
            &&& lines[i + 2].text.skip(1) == file[i]
            &&& lines[i + 2].kind == if "++ "@.is_prefix_of(file[i]) {
                DiffLineKind::Header
            } else {
                DiffLineKind::Added
            }
        } by {
            the_mark_says_what_a_line_is('+', file[i]);
            assert((seq!['+'] + file[i]).skip(1) =~= file[i]);
        }
    }
}

/// What git prints of a file that it knows is shown line by line, as it is
/// printed. Where it says that the file is binary, on the first line or a later
/// one, there is no text to show.
pub proof fn a_known_file_is_shown_as_printed(text: Seq<char>)
    ensures
        match tracked_diff(text) {
            DiffView::Text(lines) => lines.len() == lines_of(text).len() && lines.len() > 0
                && forall|i: int|
                0 <= i < lines.len() ==> (#[trigger] lines[i]).text == lines_of(text)[i],
            DiffView::Empty => lines_of(text).len() == 0,
            DiffView::Binary => has_text(text, "Binary files "@),
            DiffView::Deleted => false,
        },
{
    reveal_strlit("Binary files ");
    reveal_strlit("\nBinary files ");
    let w = "Binary files "@;
    let nw = "\nBinary files "@;
    if has_text(text, nw) {
        let i = choose|i: int| occurs_at(text, nw, i);
        assert(text.subrange(i + 1, i + 1 + w.len()) =~= text.subrange(i, i + nw.len()).skip(1));
        assert(nw.skip(1) =~= w);
        assert(occurs_at(text, w, i + 1));
    }
    if w.is_prefix_of(text) {
        assert(occurs_at(text, w, 0));
    }
}

/// A line that starts with what git says of a binary file leaves no text to show,
/// wherever it stands.
pub proof fn a_binary_file_has_no_text(before: Seq<char>, after: Seq<char>)
    ensures
        tracked_diff("Binary files "@ + after) is Binary,
        tracked_diff(before + "\nBinary files "@ + after) is Binary,
{
    let w = "Binary files "@;
    let nw = "\nBinary files "@;
    let first = w + after;
    let later = before + nw + after;
    assert(first.subrange(0, w.len() as int) =~= w);
    assert(later.subrange(before.len() as int, before.len() as int + nw.len()) =~= nw);
    assert(occurs_at(later, nw, before.len() as int));
}

/// A file with a NUL among its first few thousand bytes is binary, and what stands
/// behind them does not matter.
pub proof fn a_nul_near_the_front_makes_a_file_binary(bytes: Seq<u8>, more: Seq<u8>, at: int)
    ensures
        0 <= at < bytes.len() && at < 8000 && bytes[at] == 0 ==> is_binary(bytes),
        bytes.len() >= 8000 ==> is_binary(bytes + more) == is_binary(bytes),
        !bytes.contains(0u8) ==> !is_binary(bytes),
{
    let all = bytes + more;
    if bytes.len() >= 8000 {
        if is_binary(all) {
            let i = choose|i: int| 0 <= i < all.len() && i < 8000 && #[trigger] all[i] == 0;
            assert(bytes[i] == 0);
        }
        if is_binary(bytes) {
            let i = choose|i: int| 0 <= i < bytes.len() && i < 8000 && #[trigger] bytes[i] == 0;
            assert(all[i] == 0);
        }
    }
}

} // verus!
