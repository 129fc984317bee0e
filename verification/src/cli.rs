use vstd::prelude::*;
use vstd::string::StringExecFns;
use crate::text::{ends_with, spec_ends_with, spec_trim, trim};

verus! {

/// The command-line options of the program.
pub struct Cli {
    /// The subcommand, if one was given.
    pub command: Option<Commands>,
    /// The Arabic text to convert
    pub text: Option<Vec<String>>,
    /// Use ANSI colors in output
    pub color: bool,
    /// Wrap output in a Unicode frame
    pub frame: bool,
    /// Add N columns of spacing between glyphs
    pub spacing: usize,
    /// Write output to file (.ans extension enables color)
    pub output: Option<String>,
}

/// The subcommands of the program.
pub enum Commands {
    /// Interactive live preview mode
    Interactive,
    /// List all available glyphs
    List,
    /// Show all 4 positional forms of a specific glyph
    Show {
        /// Name of the glyph to show
        name: String,
    },
    /// Show all 4 positional forms of all glyphs
    ShowAll,
    /// Validate the glyphs definition file
    Validate,
}

/// Whether output written to `out_path` gets ANSI colours: when colour was
/// asked for, or when the file name ends in `.ans`.
pub fn wants_ansi(color: bool, out_path: &str) -> (r: bool)
    ensures
        r == (color || spec_ends_with(out_path@, ".ans"@)),
{
    if color {
        return true;
    }
    let suffix = String::from_str(".ans");
    ends_with(out_path, suffix.as_str())
}

/// The text to render of a line read from standard input: the line trimmed
/// of surrounding whitespace, or `None` where nothing is left.
pub fn input_line(line: &str) -> (r: Option<String>)
    ensures
        match r {
            None => spec_trim(line@).len() == 0,
            Some(t) => t@ == spec_trim(line@) && t@.len() > 0,
        },
{
    let t = trim(line);
    if t.as_str().is_empty() {
        None
    } else {
        Some(t)
    }
}

/// Adds the lines rendered from one input line to the lines collected for
/// the output file, after a blank separator line unless they are the first.
pub fn add_block(all_lines: &mut Vec<String>, block: Vec<String>, first: bool)
    ensures
        final(all_lines)@.map_values(|l: String| l@) == old(all_lines)@.map_values(|l: String| l@)
            + (if first { Seq::<Seq<char>>::empty() } else { seq![Seq::<char>::empty()] })
            + block@.map_values(|l: String| l@),
{
    let ghost start = old(all_lines)@.map_values(|l: String| l@);
    let ghost sep = if first { Seq::<Seq<char>>::empty() } else { seq![Seq::<char>::empty()] };
    if !first {
        all_lines.push(String::new());
    }
    assert(all_lines@.map_values(|l: String| l@) =~= start + sep);
    let ghost bv = block@.map_values(|l: String| l@);
    let ghost mut done: int = 0;
    for line in it: block.into_iter()
        invariant
            it.seq() == block@,
            bv == block@.map_values(|l: String| l@),
            done == it.index(),
            all_lines@.map_values(|l: String| l@) == start + sep + bv.take(done),
    {
        let ghost lv = line@;
        let ghost prev = all_lines@;
        all_lines.push(line);
        proof {
            assert(all_lines@ == prev.push(line));
            assert(all_lines@.map_values(|l: String| l@) =~= prev.map_values(|l: String| l@).push(lv));
            assert(bv[done] == lv);
            assert(bv.take(done + 1) =~= bv.take(done).push(lv));
            assert(all_lines@.map_values(|l: String| l@) =~= start + sep + bv.take(done + 1));
            done = done + 1;
        }
    }
    assert(bv.take(bv.len() as int) =~= bv);
}

} // verus!
