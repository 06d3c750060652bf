//! How the results of several files are laid out: file names, headings,
//! colour and the exit code.
use vstd::prelude::*;
use vstd::string::StringExecFns;
use vstd::utf8::encode_utf8;

use crate::text::push_char;
use crate::{COLOR_PATH, COLOR_RESET};

verus! {

/// When to emit ANSI colour codes.
#[derive(Clone, Copy, Debug, PartialEq, Eq)]
pub enum ColorMode {
    /// Emit colour when standard output is a terminal and `NO_COLOR` is unset.
    Auto,
    /// Always emit colour.
    Always,
    /// Never emit colour.
    Never,
}

/// Whether output is coloured.
pub fn use_color(mode: ColorMode, is_tty: bool, no_color_set: bool) -> (color: bool)
    ensures
        color == match mode {
            ColorMode::Always => true,
            ColorMode::Never => false,
            ColorMode::Auto => is_tty && !no_color_set,
        },
{
    match mode {
        ColorMode::Always => true,
        ColorMode::Never => false,
        ColorMode::Auto => is_tty && !no_color_set,
    }
}

/// Whether output names the file of each result: where more than one file is
/// searched, or a directory was searched (given, or the current one by
/// default).
pub fn show_filename(file_count: usize, searched_directory: bool) -> (show: bool)
    ensures
        show == (file_count > 1 || searched_directory),
{
    file_count > 1 || searched_directory
}

/// Whether results are grouped under a heading line per file: where file
/// names are shown, matches are printed rather than counted, headings are not
/// turned off, and output goes to a terminal.
pub fn use_heading(show_filename: bool, count: bool, no_heading: bool, is_tty: bool) -> (heading:
    bool)
    ensures
        heading == (show_filename && !count && !no_heading && is_tty),
{
    show_filename && !count && !no_heading && is_tty
}

/// The prefix of a file's result lines: `path:` (the path in the path colour
/// where coloured) where file names are shown without headings; else nothing.
pub open spec fn file_prefix_text(
    path: Seq<char>,
    show_filename: bool,
    use_heading: bool,
    use_color: bool,
) -> Seq<char> {
    if show_filename && !use_heading {
        if use_color {
            COLOR_PATH@ + path + COLOR_RESET@ + seq![':']
        } else {
            path + seq![':']
        }
    } else {
        seq![]
    }
}

/// The prefix of a file's result lines.
pub fn file_prefix(path: &str, show_filename: bool, use_heading: bool, use_color: bool) -> (prefix:
    String)
    ensures
        prefix@ == file_prefix_text(path@, show_filename, use_heading, use_color),
{
    let mut prefix = String::new();
    if show_filename && !use_heading {
        if use_color {
            prefix.append(COLOR_PATH);
            prefix.append(path);
            prefix.append(COLOR_RESET);
        } else {
            prefix.append(path);
        }
        push_char(&mut prefix, ':');
    }
    assert(prefix@ =~= file_prefix_text(path@, show_filename, use_heading, use_color));
    prefix
}

/// What is printed of a file's results `buf`: nothing where there are none;
/// under a heading, the path (coloured where colour is on) on a line of its
/// own, the results and an empty line; else the results alone.
pub open spec fn file_output_bytes(
    path: Seq<char>,
    buf: Seq<u8>,
    use_heading: bool,
    use_color: bool,
) -> Seq<u8> {
    if buf.len() == 0 {
        seq![]
    } else if use_heading {
        encode_utf8(
            if use_color {
                COLOR_PATH@ + path + COLOR_RESET@ + seq!['\n']
            } else {
                path + seq!['\n']
            },
        ) + buf + seq![10u8]
    } else {
        buf
    }
}

/// Appends `bytes` to `out`.
fn push_bytes(out: &mut Vec<u8>, bytes: &[u8])
    ensures
        final(out)@ == old(out)@ + bytes@,
{
    let mut i: usize = 0;
    while i < bytes.len()
        invariant
            i <= bytes@.len(),
            out@ == old(out)@ + bytes@.take(i as int),
        decreases bytes@.len() - i,
    {
        out.push(bytes[i]);
        assert(bytes@.take(i + 1) =~= bytes@.take(i as int).push(bytes@[i as int]));
        i += 1;
    }
    assert(bytes@.take(bytes@.len() as int) =~= bytes@);
}

/// What is printed of a file's results.
pub fn file_output(path: &str, buf: &[u8], use_heading: bool, use_color: bool) -> (printed: Vec<
    u8,
>)
    ensures
        printed@ == file_output_bytes(path@, buf@, use_heading, use_color),
{
    let mut printed: Vec<u8> = Vec::new();
    if buf.len() == 0 {
        assert(printed@ =~= file_output_bytes(path@, buf@, use_heading, use_color));
        return printed;
    }
    if use_heading {
        let mut heading = String::new();
        if use_color {
            heading.append(COLOR_PATH);
            heading.append(path);
            heading.append(COLOR_RESET);
        } else {
            heading.append(path);
        }
        push_char(&mut heading, '\n');
        push_bytes(&mut printed, heading.as_str().as_bytes());
        push_bytes(&mut printed, buf);
        printed.push(10u8);
        assert(heading@ =~= (if use_color {
            COLOR_PATH@ + path@ + COLOR_RESET@ + seq!['\n']
        } else {
            path@ + seq!['\n']
        }));
    } else {
        push_bytes(&mut printed, buf);
    }
    printed
}

/// The exit code of a search: 1 where no file was found to search; else 2
/// where a file could not be searched, 0 where something matched and 1 where
/// nothing did.
pub fn exit_code(files_found: bool, any_match: bool, had_error: bool) -> (code: i32)
    ensures
        code == (if !files_found {
            1i32
        } else if had_error {
            2i32
        } else if any_match {
            0i32
        } else {
            1i32
        }),
{
    if !files_found {
        1
    } else if had_error {
        2
    } else if any_match {
        0
    } else {
        1
    }
}

/// The exit code of a search that stopped on an error: 0 where output was cut
/// off by a closed pipe, else 2.
pub fn error_exit_code(broken_pipe: bool) -> (code: i32)
    ensures
        code == (if broken_pipe {
            0i32
        } else {
            2i32
        }),
{
    if broken_pipe {
        0
    } else {
        2
    }
}


/// A file's name is shown at most once for its results: under a heading the
/// result lines carry no file prefix, and without a heading nothing is printed
/// in front of the results. Lines carry a prefix exactly where file names are
/// shown without headings, and that prefix ends with the path and a colon
/// (the colour reset between them where coloured).
pub proof fn lemma_file_name_shown_once(
    path: Seq<char>,
    buf: Seq<u8>,
    show_filename: bool,
    use_heading: bool,
    use_color: bool,
)
    ensures
        use_heading ==> file_prefix_text(path, show_filename, use_heading, use_color).len() == 0,
        !use_heading ==> file_output_bytes(path, buf, use_heading, use_color) == buf,
        (file_prefix_text(path, show_filename, use_heading, use_color).len() > 0) == (show_filename
            && !use_heading),
        show_filename && !use_heading && !use_color ==> file_prefix_text(
            path,
            show_filename,
            use_heading,
            use_color,
        ) == path + seq![':'],
        show_filename && !use_heading ==> file_prefix_text(
            path,
            show_filename,
            use_heading,
            use_color,
        ).last() == ':',
{
}
} // verus!
