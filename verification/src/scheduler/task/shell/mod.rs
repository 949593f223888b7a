//! The shell's command line: a command name and its arguments. Reading the line and
//! running the command are tasks outside this library.
use crate::utils::text::{ascii_bytes, find_white_space, first_white_space, trim, trimmed};
use crate::vga_buffer::writer::main_writer::{
    lemma_main_steps_keep_color, lemma_main_steps_ok, lemma_main_write_in_row, lemma_row_untouched, spec_print,
    with_color, VGAWriter,
};
use crate::vga_buffer::writer::{VGAByteWriter, WriterState};
use crate::vga_buffer::{cell_index, spec_color_byte, ColorMode, TextColor, VGAChar, VGA_COLS};
use vstd::prelude::*;
use vstd::string::*;

pub mod subtasks;

verus! {

/// A command line split into the command and its arguments: the line is trimmed, the
/// command runs up to the first white space, and the arguments are the rest after that
/// white space, trimmed; a line without white space is all command.
pub open spec fn spec_parse_command(line: Seq<char>) -> (Seq<char>, Seq<char>) {
    let t = trimmed(line);
    let p = first_white_space(t);
    if p < t.len() {
        (t.take(p as int), trimmed(t.skip(p + 1 as int)))
    } else {
        (t, Seq::empty())
    }
}

pub fn parse_command(input: &str) -> (r: (&str, &str))
    ensures
        (r.0@, r.1@) == spec_parse_command(input@),
{
    let t = trim(input);
    let p = find_white_space(t);
    let len = t.unicode_len();
    if p < len {
        let command = t.substring_char(0, p);
        let rest = t.substring_char(p + 1, len);
        proof {
            assert(command@ =~= t@.take(p as int));
            assert(rest@ =~= t@.skip(p + 1 as int));
        }
        (command, trim(rest))
    } else {
        (t, t.substring_char(len, len))
    }
}

/// The prompt, `admin@kalopsia-os $ `: the user in yellow, the host in cyan, the rest in
/// white, which later text keeps.
pub open spec fn spec_prompt(s: crate::vga_buffer::writer::WriterState) -> crate::vga_buffer::writer::WriterState {
    let s1 = spec_print(with_color(s, TextColor::Yellow), ascii_bytes(seq!['a', 'd', 'm', 'i', 'n']));
    let s2 = spec_print(
        with_color(s1, TextColor::Cyan),
        ascii_bytes(seq!['@', 'k', 'a', 'l', 'o', 'p', 's', 'i', 'a', '-', 'o', 's']),
    );
    spec_print(with_color(s2, TextColor::White), ascii_bytes(seq![' ', '$', ' ']))
}

pub fn print_prompt(writer: &mut VGAWriter)
    requires
        VGAWriter::step_ok(old(writer).state()),
    ensures
        VGAWriter::step_ok(final(writer).state()),
        final(writer).state() == spec_prompt(old(writer).state()),
        final(writer).state().color == ColorMode(spec_color_byte(TextColor::White, TextColor::Black, false)),
{
    proof {
        lemma_prompt_leaves_white(old(writer).state());
    }
    let user = "admin";
    let host = "@kalopsia-os";
    let tail = " $ ";
    proof {
        reveal_strlit("admin");
        reveal_strlit("@kalopsia-os");
        reveal_strlit(" $ ");
        vstd::string::is_ascii_spec_bytes(user);
        vstd::string::is_ascii_spec_bytes(host);
        vstd::string::is_ascii_spec_bytes(tail);
        assert(user.spec_bytes() =~= ascii_bytes(seq!['a', 'd', 'm', 'i', 'n']));
        assert(host.spec_bytes() =~= ascii_bytes(seq!['@', 'k', 'a', 'l', 'o', 'p', 's', 'i', 'a', '-', 'o', 's']));
        assert(tail.spec_bytes() =~= ascii_bytes(seq![' ', '$', ' ']));
    }
    writer.change_text_color(TextColor::Yellow);
    writer.print_str(user);
    writer.change_text_color(TextColor::Cyan);
    writer.print_str(host);
    writer.change_text_color(TextColor::White);
    writer.print_str(tail);
}

/// The color a writer is left in after the prompt: white on black, whatever came before,
/// so that the command typed after it, and the command's output, show in white.
pub proof fn lemma_prompt_leaves_white(s: WriterState)
    ensures
        spec_prompt(s).color == ColorMode(spec_color_byte(TextColor::White, TextColor::Black, false)),
{
    let s1 = spec_print(with_color(s, TextColor::Yellow), ascii_bytes(seq!['a', 'd', 'm', 'i', 'n']));
    let s2 = spec_print(
        with_color(s1, TextColor::Cyan),
        ascii_bytes(seq!['@', 'k', 'a', 'l', 'o', 'p', 's', 'i', 'a', '-', 'o', 's']),
    );
    let w = with_color(s2, TextColor::White);
    let start = if w.escape {
        WriterState { col: 0, cells: crate::vga_buffer::spec_clear_row(w.cells, w.row as int), ..w }
    } else {
        w
    };
    lemma_main_steps_keep_color(start, ascii_bytes(seq![' ', '$', ' ']));
}

/// The prompt printed from a cursor with room for its 20 characters in the row, and
/// without the escape mode, shows `admin` in yellow, `@kalopsia-os` in cyan and ` $ ` in
/// white on black, from the cursor on, and leaves the cursor after it.
pub proof fn lemma_prompt_colors(s: WriterState)
    requires
        VGAWriter::step_ok(s),
        !s.escape,
        s.col + 20 <= VGA_COLS,
    ensures
        ({
            let t = spec_prompt(s);
            let yellow = ColorMode(spec_color_byte(TextColor::Yellow, TextColor::Black, false));
            let cyan = ColorMode(spec_color_byte(TextColor::Cyan, TextColor::Black, false));
            let white = ColorMode(spec_color_byte(TextColor::White, TextColor::Black, false));
            let user = ascii_bytes(seq!['a', 'd', 'm', 'i', 'n']);
            let host = ascii_bytes(seq!['@', 'k', 'a', 'l', 'o', 'p', 's', 'i', 'a', '-', 'o', 's']);
            let tail = ascii_bytes(seq![' ', '$', ' ']);
            &&& t.row == s.row
            &&& t.col == s.col + 20
            &&& forall|i: int| 0 <= i < 5 ==> #[trigger] t.cells[cell_index(s.row as int, s.col + i)]
                == VGAChar { byte: user[i], color: yellow }
            &&& forall|i: int| 0 <= i < 12 ==> #[trigger] t.cells[cell_index(s.row as int, s.col + 5 + i)]
                == VGAChar { byte: host[i], color: cyan }
            &&& forall|i: int| 0 <= i < 3 ==> #[trigger] t.cells[cell_index(s.row as int, s.col + 17 + i)]
                == VGAChar { byte: tail[i], color: white }
        }),
{
    let user = ascii_bytes(seq!['a', 'd', 'm', 'i', 'n']);
    let host = ascii_bytes(seq!['@', 'k', 'a', 'l', 'o', 'p', 's', 'i', 'a', '-', 'o', 's']);
    let tail = ascii_bytes(seq![' ', '$', ' ']);
    assert(user =~= seq![97u8, 100, 109, 105, 110]);
    assert(host =~= seq![64u8, 107, 97, 108, 111, 112, 115, 105, 97, 45, 111, 115]);
    assert(tail =~= seq![32u8, 36, 32]);
    let w0 = with_color(s, TextColor::Yellow);
    lemma_main_write_in_row(w0, user);
    lemma_main_steps_ok(w0, user);
    let s1 = spec_print(w0, user);
    let w1 = with_color(s1, TextColor::Cyan);
    lemma_main_write_in_row(w1, host);
    lemma_main_steps_ok(w1, host);
    let s2 = spec_print(w1, host);
    let w2 = with_color(s2, TextColor::White);
    lemma_main_write_in_row(w2, tail);
    let t = spec_print(w2, tail);
    assert(t == spec_prompt(s));
    assert forall|i: int| 0 <= i < 5 implies #[trigger] t.cells[cell_index(s.row as int, s.col + i)]
        == VGAChar { byte: user[i], color: w0.color } by {
        lemma_row_untouched(w1, host, s.col + i);
        lemma_row_untouched(w2, tail, s.col + i);
    }
    assert forall|i: int| 0 <= i < 12 implies #[trigger] t.cells[cell_index(s.row as int, s.col + 5 + i)]
        == VGAChar { byte: host[i], color: w1.color } by {
        lemma_row_untouched(w2, tail, s.col + 5 + i);
    }
}

} // verus!
