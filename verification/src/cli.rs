use vstd::prelude::*;
use vstd::string::*;

use crate::packet::{packet_check, sealed_header, Packet, PacketFlags, PacketType};
use crate::text::{append_hex, hex_digits};

verus! {

/// Operation mode of the command-line tool.
#[derive(Debug, Clone, Copy, PartialEq, Eq, Structural)]
pub enum Mode {
    Parse,
    Generate,
    Validate,
    Stats,
    Help,
    Version,
}

/// Command-line arguments.
#[derive(Debug)]
pub struct Args {
    pub mode: Mode,
    pub input_file: Option<String>,
    pub output_file: Option<String>,
    pub verbose: bool,
    pub no_checksum: bool,
}

/// The arguments as plain values: mode, input file, output file, verbose, no checksum.
pub type ArgsModel = (Mode, Option<Seq<char>>, Option<Seq<char>>, bool, bool);

/// The text of an optional string.
pub open spec fn opt_text(o: Option<String>) -> Option<Seq<char>> {
    match o {
        Some(s) => Some(s@),
        None => None,
    }
}

impl View for Args {
    type V = ArgsModel;

    open spec fn view(&self) -> ArgsModel {
        (self.mode, opt_text(self.input_file), opt_text(self.output_file), self.verbose, self.no_checksum)
    }
}

/// Whether `a` is one of the two spellings of an option.
pub open spec fn is_option(a: Seq<char>, short: Seq<char>, long: Seq<char>) -> bool {
    a == short || a == long
}

/// Reading the command line from position `i` on, with `st` the arguments read so far.
/// Options are read left to right: a mode option sets the mode (the last one wins), `-i` and
/// `-o` take the next word as a file, `--verbose` and `--no-checksum` set their switch, any
/// other word that starts with `-` is an unknown option, and a plain word is the input file,
/// or the output file once the input is known, or an error once both are.
pub open spec fn read_args(args: Seq<Seq<char>>, i: int, st: ArgsModel) -> Result<ArgsModel, Seq<char>>
    decreases args.len() - i,
{
    if i < 0 || i >= args.len() {
        Ok(st)
    } else {
        let a = args[i];
        if is_option(a, "-h"@, "--help"@) {
            read_args(args, i + 1, (Mode::Help, st.1, st.2, st.3, st.4))
        } else if is_option(a, "-v"@, "--version"@) {
            read_args(args, i + 1, (Mode::Version, st.1, st.2, st.3, st.4))
        } else if is_option(a, "-p"@, "--parse"@) {
            read_args(args, i + 1, (Mode::Parse, st.1, st.2, st.3, st.4))
        } else if is_option(a, "-g"@, "--generate"@) {
            read_args(args, i + 1, (Mode::Generate, st.1, st.2, st.3, st.4))
        } else if a == "--validate"@ {
            read_args(args, i + 1, (Mode::Validate, st.1, st.2, st.3, st.4))
        } else if a == "--stats"@ {
            read_args(args, i + 1, (Mode::Stats, st.1, st.2, st.3, st.4))
        } else if is_option(a, "-i"@, "--input"@) {
            if i + 1 < args.len() {
                read_args(args, i + 2, (st.0, Some(args[i + 1]), st.2, st.3, st.4))
            } else {
                Err("Missing argument for --input"@)
            }
        } else if is_option(a, "-o"@, "--output"@) {
            if i + 1 < args.len() {
                read_args(args, i + 2, (st.0, st.1, Some(args[i + 1]), st.3, st.4))
            } else {
                Err("Missing argument for --output"@)
            }
        } else if a == "--verbose"@ {
            read_args(args, i + 1, (st.0, st.1, st.2, true, st.4))
        } else if a == "--no-checksum"@ {
            read_args(args, i + 1, (st.0, st.1, st.2, st.3, true))
        } else if a.len() > 0 && a[0] == '-' {
            Err("Unknown option: "@ + a)
        } else if st.1 is None {
            read_args(args, i + 1, (st.0, Some(a), st.2, st.3, st.4))
        } else if st.2 is None {
            read_args(args, i + 1, (st.0, st.1, Some(a), st.3, st.4))
        } else {
            Err("Unexpected argument: "@ + a)
        }
    }
}

/// The arguments read from a command line whose first word is the program's name; by default
/// the mode is parse, no file is given and both switches are off.
pub open spec fn parse_args(args: Seq<Seq<char>>) -> Result<ArgsModel, Seq<char>> {
    read_args(args, 1, (Mode::Parse, None, None, false, false))
}

/// Reading from position `i` on looks only at the words from `i` on.
proof fn lemma_read_args_reads_suffix(a: Seq<Seq<char>>, c: Seq<Seq<char>>, i: int, st: ArgsModel)
    requires
        a.len() == c.len(),
        forall|k: int| i <= k < a.len() ==> a[k] == c[k],
    ensures
        read_args(a, i, st) == read_args(c, i, st),
    decreases a.len() - i,
{
    if 0 <= i < a.len() {
        assert(a[i] == c[i]);
        if i + 1 < a.len() {
            assert(a[i + 1] == c[i + 1]);
        }
        if i + 1 <= a.len() {
            lemma_read_args_reads_suffix(a, c, i + 1, (Mode::Help, st.1, st.2, st.3, st.4));
            lemma_read_args_reads_suffix(a, c, i + 1, (Mode::Version, st.1, st.2, st.3, st.4));
            lemma_read_args_reads_suffix(a, c, i + 1, (Mode::Parse, st.1, st.2, st.3, st.4));
            lemma_read_args_reads_suffix(a, c, i + 1, (Mode::Generate, st.1, st.2, st.3, st.4));
            lemma_read_args_reads_suffix(a, c, i + 1, (Mode::Validate, st.1, st.2, st.3, st.4));
            lemma_read_args_reads_suffix(a, c, i + 1, (Mode::Stats, st.1, st.2, st.3, st.4));
            lemma_read_args_reads_suffix(a, c, i + 1, (st.0, st.1, st.2, true, st.4));
            lemma_read_args_reads_suffix(a, c, i + 1, (st.0, st.1, st.2, st.3, true));
            lemma_read_args_reads_suffix(a, c, i + 1, (st.0, Some(a[i]), st.2, st.3, st.4));
            lemma_read_args_reads_suffix(a, c, i + 1, (st.0, st.1, Some(a[i]), st.3, st.4));
        }
        if i + 2 <= a.len() {
            lemma_read_args_reads_suffix(a, c, i + 2, (st.0, Some(a[i + 1]), st.2, st.3, st.4));
            lemma_read_args_reads_suffix(a, c, i + 2, (st.0, st.1, Some(a[i + 1]), st.3, st.4));
        }
    }
}

proof fn lemma_option_literals()
    ensures
        "-h"@ =~= seq!['-', 'h'],
        "--help"@ =~= seq!['-', '-', 'h', 'e', 'l', 'p'],
        "-v"@ =~= seq!['-', 'v'],
        "--version"@ =~= seq!['-', '-', 'v', 'e', 'r', 's', 'i', 'o', 'n'],
        "-p"@ =~= seq!['-', 'p'],
        "--parse"@ =~= seq!['-', '-', 'p', 'a', 'r', 's', 'e'],
        "-g"@ =~= seq!['-', 'g'],
        "--generate"@ =~= seq!['-', '-', 'g', 'e', 'n', 'e', 'r', 'a', 't', 'e'],
        "--validate"@ =~= seq!['-', '-', 'v', 'a', 'l', 'i', 'd', 'a', 't', 'e'],
        "--stats"@ =~= seq!['-', '-', 's', 't', 'a', 't', 's'],
        "-i"@ =~= seq!['-', 'i'],
        "--input"@ =~= seq!['-', '-', 'i', 'n', 'p', 'u', 't'],
        "-o"@ =~= seq!['-', 'o'],
        "--output"@ =~= seq!['-', '-', 'o', 'u', 't', 'p', 'u', 't'],
        "--verbose"@ =~= seq!['-', '-', 'v', 'e', 'r', 'b', 'o', 's', 'e'],
        "--no-checksum"@ =~= seq!['-', '-', 'n', 'o', '-', 'c', 'h', 'e', 'c', 'k', 's', 'u', 'm'],
{
    reveal_strlit("-h");
    reveal_strlit("--help");
    reveal_strlit("-v");
    reveal_strlit("--version");
    reveal_strlit("-p");
    reveal_strlit("--parse");
    reveal_strlit("-g");
    reveal_strlit("--generate");
    reveal_strlit("--validate");
    reveal_strlit("--stats");
    reveal_strlit("-i");
    reveal_strlit("--input");
    reveal_strlit("-o");
    reveal_strlit("--output");
    reveal_strlit("--verbose");
    reveal_strlit("--no-checksum");
}

/// Each option with a long and a short spelling is read the same way under either spelling,
/// wherever in the command line it is read and whatever was read before.
pub proof fn lemma_long_and_short_options_agree(args: Seq<Seq<char>>, i: int, st: ArgsModel)
    requires
        0 <= i < args.len(),
    ensures
        args[i] == "--help"@ ==> read_args(args, i, st) == read_args(args.update(i, "-h"@), i, st),
        args[i] == "--version"@ ==> read_args(args, i, st) == read_args(
            args.update(i, "-v"@),
            i,
            st,
        ),
        args[i] == "--parse"@ ==> read_args(args, i, st) == read_args(args.update(i, "-p"@), i, st),
        args[i] == "--generate"@ ==> read_args(args, i, st) == read_args(
            args.update(i, "-g"@),
            i,
            st,
        ),
        args[i] == "--input"@ ==> read_args(args, i, st) == read_args(args.update(i, "-i"@), i, st),
        args[i] == "--output"@ ==> read_args(args, i, st) == read_args(
            args.update(i, "-o"@),
            i,
            st,
        ),
{
    lemma_agree_help(args, i, st);
    lemma_agree_version(args, i, st);
    lemma_agree_parse(args, i, st);
    lemma_agree_generate(args, i, st);
    lemma_agree_input(args, i, st);
    lemma_agree_output(args, i, st);
}

proof fn lemma_agree_help(args: Seq<Seq<char>>, i: int, st: ArgsModel)
    requires
        0 <= i < args.len(),
    ensures
        args[i] == "--help"@ ==> read_args(args, i, st) == read_args(args.update(i, "-h"@), i, st),
{
    if args[i] == "--help"@ {
        lemma_option_literals();
        lemma_respelled_rest(args, i, "-h"@);
        let c = args.update(i, "-h"@);
        assert(c[i] == "-h"@);
        assert(is_option(c[i], "-h"@, "--help"@) && is_option(args[i], "-h"@, "--help"@));
        let next = (Mode::Help, st.1, st.2, st.3, st.4);
        assert(read_args(c, i, st) == read_args(c, i + 1, next));
        assert(read_args(args, i, st) == read_args(args, i + 1, next));
        assert(read_args(c, i + 1, next) == read_args(args, i + 1, next));
    }
}

proof fn lemma_agree_version(args: Seq<Seq<char>>, i: int, st: ArgsModel)
    requires
        0 <= i < args.len(),
    ensures
        args[i] == "--version"@ ==> read_args(args, i, st) == read_args(args.update(i, "-v"@), i, st),
{
    if args[i] == "--version"@ {
        lemma_option_literals();
        lemma_respelled_rest(args, i, "-v"@);
        let c = args.update(i, "-v"@);
        assert(c[i] == "-v"@);
        assert(!is_option(c[i], "-h"@, "--help"@));
        assert(!is_option(args[i], "-h"@, "--help"@));
        assert(is_option(c[i], "-v"@, "--version"@) && is_option(args[i], "-v"@, "--version"@));
        let next = (Mode::Version, st.1, st.2, st.3, st.4);
        assert(read_args(c, i, st) == read_args(c, i + 1, next));
        assert(read_args(args, i, st) == read_args(args, i + 1, next));
        assert(read_args(c, i + 1, next) == read_args(args, i + 1, next));
    }
}

proof fn lemma_agree_parse(args: Seq<Seq<char>>, i: int, st: ArgsModel)
    requires
        0 <= i < args.len(),
    ensures
        args[i] == "--parse"@ ==> read_args(args, i, st) == read_args(args.update(i, "-p"@), i, st),
{
    if args[i] == "--parse"@ {
        lemma_option_literals();
        lemma_respelled_rest(args, i, "-p"@);
        let c = args.update(i, "-p"@);
        assert(c[i] == "-p"@);
        assert(!is_option(c[i], "-h"@, "--help"@));
        assert(!is_option(args[i], "-h"@, "--help"@));
        assert(!is_option(c[i], "-v"@, "--version"@));
        assert(!is_option(args[i], "-v"@, "--version"@));
        assert(is_option(c[i], "-p"@, "--parse"@) && is_option(args[i], "-p"@, "--parse"@));
        let next = (Mode::Parse, st.1, st.2, st.3, st.4);
        assert(read_args(c, i, st) == read_args(c, i + 1, next));
        assert(read_args(args, i, st) == read_args(args, i + 1, next));
        assert(read_args(c, i + 1, next) == read_args(args, i + 1, next));
    }
}

proof fn lemma_agree_generate(args: Seq<Seq<char>>, i: int, st: ArgsModel)
    requires
        0 <= i < args.len(),
    ensures
        args[i] == "--generate"@ ==> read_args(args, i, st) == read_args(args.update(i, "-g"@), i, st),
{
    if args[i] == "--generate"@ {
        lemma_option_literals();
        lemma_respelled_rest(args, i, "-g"@);
        let c = args.update(i, "-g"@);
        assert(c[i] == "-g"@);
        assert(!is_option(c[i], "-h"@, "--help"@));
        assert(!is_option(args[i], "-h"@, "--help"@));
        assert(!is_option(c[i], "-v"@, "--version"@));
        assert(!is_option(args[i], "-v"@, "--version"@));
        assert(!is_option(c[i], "-p"@, "--parse"@));
        assert(!is_option(args[i], "-p"@, "--parse"@));
        assert(is_option(c[i], "-g"@, "--generate"@) && is_option(args[i], "-g"@, "--generate"@));
        let next = (Mode::Generate, st.1, st.2, st.3, st.4);
        assert(read_args(c, i, st) == read_args(c, i + 1, next));
        assert(read_args(args, i, st) == read_args(args, i + 1, next));
        assert(read_args(c, i + 1, next) == read_args(args, i + 1, next));
    }
}

proof fn lemma_agree_input(args: Seq<Seq<char>>, i: int, st: ArgsModel)
    requires
        0 <= i < args.len(),
    ensures
        args[i] == "--input"@ ==> read_args(args, i, st) == read_args(args.update(i, "-i"@), i, st),
{
    if args[i] == "--input"@ {
        lemma_option_literals();
        lemma_respelled_rest(args, i, "-i"@);
        let c = args.update(i, "-i"@);
        assert(c[i] == "-i"@);
        assert(!is_option(c[i], "-h"@, "--help"@));
        assert(!is_option(args[i], "-h"@, "--help"@));
        assert(!is_option(c[i], "-v"@, "--version"@));
        assert(!is_option(args[i], "-v"@, "--version"@));
        assert(!is_option(c[i], "-p"@, "--parse"@));
        assert(!is_option(args[i], "-p"@, "--parse"@));
        assert(!is_option(c[i], "-g"@, "--generate"@));
        assert(!is_option(args[i], "-g"@, "--generate"@));
        assert(c[i] != "--validate"@);
        assert(args[i] != "--validate"@);
        assert(c[i] != "--stats"@);
        assert(args[i] != "--stats"@);
        assert(is_option(c[i], "-i"@, "--input"@) && is_option(args[i], "-i"@, "--input"@));
        if i + 1 < args.len() {
            let next = (st.0, Some(args[i + 1]), st.2, st.3, st.4);
            assert(c[i + 1] == args[i + 1]);
            assert(read_args(c, i, st) == read_args(c, i + 2, next));
            assert(read_args(args, i, st) == read_args(args, i + 2, next));
            assert(read_args(c, i + 2, next) == read_args(args, i + 2, next));
        } else {
            assert(read_args(c, i, st) == Err::<ArgsModel, Seq<char>>("Missing argument for --input"@));
            assert(read_args(args, i, st) == Err::<ArgsModel, Seq<char>>("Missing argument for --input"@));
        }
    }
}

proof fn lemma_agree_output(args: Seq<Seq<char>>, i: int, st: ArgsModel)
    requires
        0 <= i < args.len(),
    ensures
        args[i] == "--output"@ ==> read_args(args, i, st) == read_args(args.update(i, "-o"@), i, st),
{
    if args[i] == "--output"@ {
        lemma_option_literals();
        lemma_respelled_rest(args, i, "-o"@);
        let c = args.update(i, "-o"@);
        assert(c[i] == "-o"@);
        assert(!is_option(c[i], "-h"@, "--help"@));
        assert(!is_option(args[i], "-h"@, "--help"@));
        assert(!is_option(c[i], "-v"@, "--version"@));
        assert(!is_option(args[i], "-v"@, "--version"@));
        assert(!is_option(c[i], "-p"@, "--parse"@));
        assert(!is_option(args[i], "-p"@, "--parse"@));
        assert(!is_option(c[i], "-g"@, "--generate"@));
        assert(!is_option(args[i], "-g"@, "--generate"@));
        assert(c[i] != "--validate"@);
        assert(args[i] != "--validate"@);
        assert(c[i] != "--stats"@);
        assert(args[i] != "--stats"@);
        assert(!is_option(c[i], "-i"@, "--input"@));
        assert(!is_option(args[i], "-i"@, "--input"@));
        assert(is_option(c[i], "-o"@, "--output"@) && is_option(args[i], "-o"@, "--output"@));
        if i + 1 < args.len() {
            let next = (st.0, st.1, Some(args[i + 1]), st.3, st.4);
            assert(c[i + 1] == args[i + 1]);
            assert(read_args(c, i, st) == read_args(c, i + 2, next));
            assert(read_args(args, i, st) == read_args(args, i + 2, next));
            assert(read_args(c, i + 2, next) == read_args(args, i + 2, next));
        } else {
            assert(read_args(c, i, st) == Err::<ArgsModel, Seq<char>>("Missing argument for --output"@));
            assert(read_args(args, i, st) == Err::<ArgsModel, Seq<char>>("Missing argument for --output"@));
        }
    }
}

/// Changing the word at `i` does not change how the words after it are read.
proof fn lemma_respelled_rest(args: Seq<Seq<char>>, i: int, word: Seq<char>)
    requires
        0 <= i < args.len(),
    ensures
        forall|x: ArgsModel|
            #[trigger] read_args(args.update(i, word), i + 1, x) == read_args(args, i + 1, x),
        forall|x: ArgsModel|
            #[trigger] read_args(args.update(i, word), i + 2, x) == read_args(args, i + 2, x),
        i + 1 < args.len() ==> args.update(i, word)[i + 1] == args[i + 1],
{
    assert forall|x: ArgsModel|
        #[trigger] read_args(args.update(i, word), i + 1, x) == read_args(args, i + 1, x) by {
        lemma_read_args_reads_suffix(args, args.update(i, word), i + 1, x);
    }
    assert forall|x: ArgsModel|
        #[trigger] read_args(args.update(i, word), i + 2, x) == read_args(args, i + 2, x) by {
        lemma_read_args_reads_suffix(args, args.update(i, word), i + 2, x);
    }
}

/// The input option, in either spelling, with nothing else on the command line, selects parse
/// mode with that input file; likewise the output option selects the output file.
pub proof fn lemma_file_options(program: Seq<char>, file: Seq<char>)
    ensures
        parse_args(seq![program, "--input"@, file]) == Ok::<ArgsModel, Seq<char>>(
            (Mode::Parse, Some(file), None, false, false),
        ),
        parse_args(seq![program, "-i"@, file]) == Ok::<ArgsModel, Seq<char>>(
            (Mode::Parse, Some(file), None, false, false),
        ),
        parse_args(seq![program, "--output"@, file]) == Ok::<ArgsModel, Seq<char>>(
            (Mode::Parse, None, Some(file), false, false),
        ),
        parse_args(seq![program, "-o"@, file]) == Ok::<ArgsModel, Seq<char>>(
            (Mode::Parse, None, Some(file), false, false),
        ),
{
    lemma_option_literals();
    reveal_with_fuel(read_args, 3);
}

/// What each word does alone on the command line: no word leaves parse mode with no files and
/// both switches off; each mode option selects its mode, each switch sets itself.
pub proof fn lemma_single_options(program: Seq<char>)
    ensures
        parse_args(seq![program]) == Ok::<ArgsModel, Seq<char>>((Mode::Parse, None, None, false, false)),
        parse_args(seq![program, "-h"@]) == Ok::<ArgsModel, Seq<char>>((Mode::Help, None, None, false, false)),
        parse_args(seq![program, "--help"@]) == Ok::<ArgsModel, Seq<char>>((Mode::Help, None, None, false, false)),
        parse_args(seq![program, "-v"@]) == Ok::<ArgsModel, Seq<char>>((Mode::Version, None, None, false, false)),
        parse_args(seq![program, "--version"@]) == Ok::<ArgsModel, Seq<char>>((Mode::Version, None, None, false, false)),
        parse_args(seq![program, "-p"@]) == Ok::<ArgsModel, Seq<char>>((Mode::Parse, None, None, false, false)),
        parse_args(seq![program, "--parse"@]) == Ok::<ArgsModel, Seq<char>>((Mode::Parse, None, None, false, false)),
        parse_args(seq![program, "-g"@]) == Ok::<ArgsModel, Seq<char>>((Mode::Generate, None, None, false, false)),
        parse_args(seq![program, "--generate"@]) == Ok::<ArgsModel, Seq<char>>((Mode::Generate, None, None, false, false)),
        parse_args(seq![program, "--validate"@]) == Ok::<ArgsModel, Seq<char>>((Mode::Validate, None, None, false, false)),
        parse_args(seq![program, "--stats"@]) == Ok::<ArgsModel, Seq<char>>((Mode::Stats, None, None, false, false)),
        parse_args(seq![program, "--verbose"@]) == Ok::<ArgsModel, Seq<char>>((Mode::Parse, None, None, true, false)),
        parse_args(seq![program, "--no-checksum"@]) == Ok::<ArgsModel, Seq<char>>((Mode::Parse, None, None, false, true)),
{
    lemma_option_literals();
    reveal_with_fuel(read_args, 2);
}

/// Plain words, which do not start with `-`, are the input file and then the output file; a
/// third is refused. A word that starts with `-` and is no option is refused as unknown.
pub proof fn lemma_plain_words(program: Seq<char>, w1: Seq<char>, w2: Seq<char>, w3: Seq<char>)
    ensures
        !(w1.len() > 0 && w1[0] == '-') ==> parse_args(seq![program, w1]) == Ok::<
            ArgsModel,
            Seq<char>,
        >((Mode::Parse, Some(w1), None, false, false)),
        !(w1.len() > 0 && w1[0] == '-') && !(w2.len() > 0 && w2[0] == '-') ==> parse_args(
            seq![program, w1, w2],
        ) == Ok::<ArgsModel, Seq<char>>((Mode::Parse, Some(w1), Some(w2), false, false)),
        !(w1.len() > 0 && w1[0] == '-') && !(w2.len() > 0 && w2[0] == '-') && !(w3.len() > 0
            && w3[0] == '-') ==> parse_args(seq![program, w1, w2, w3]) == Err::<
            ArgsModel,
            Seq<char>,
        >("Unexpected argument: "@ + w3),
        w1.len() > 0 && w1[0] == '-' && !is_known_option(w1) ==> parse_args(seq![program, w1])
            == Err::<ArgsModel, Seq<char>>("Unknown option: "@ + w1),
{
    lemma_option_literals();
    lemma_not_option_unless_dash(w1);
    lemma_not_option_unless_dash(w2);
    lemma_not_option_unless_dash(w3);
    reveal_with_fuel(read_args, 4);
}

/// Whether a word is one of the tool's options.
pub open spec fn is_known_option(a: Seq<char>) -> bool {
    ||| is_option(a, "-h"@, "--help"@)
    ||| is_option(a, "-v"@, "--version"@)
    ||| is_option(a, "-p"@, "--parse"@)
    ||| is_option(a, "-g"@, "--generate"@)
    ||| a == "--validate"@
    ||| a == "--stats"@
    ||| is_option(a, "-i"@, "--input"@)
    ||| is_option(a, "-o"@, "--output"@)
    ||| a == "--verbose"@
    ||| a == "--no-checksum"@
}

proof fn lemma_not_option_unless_dash(w: Seq<char>)
    ensures
        !(w.len() > 0 && w[0] == '-') ==> !is_known_option(w),
{
    lemma_option_literals();
    if !(w.len() > 0 && w[0] == '-') && is_known_option(w) {
        assert(w[0] == '-');
    }
}

/// Whether two strings have the same characters.
fn same_text(a: &str, b: &str) -> (r: bool)
    ensures
        r == (a@ == b@),
{
    let n = a.unicode_len();
    if n != b.unicode_len() {
        return false;
    }
    let mut i: usize = 0;
    while i < n
        invariant
            n == a@.len(),
            n == b@.len(),
            i <= n,
            forall|j: int| 0 <= j < i ==> a@[j] == b@[j],
        decreases n - i,
    {
        if a.get_char(i) != b.get_char(i) {
            return false;
        }
        i += 1;
    }
    assert(a@ =~= b@);
    true
}

/// Whether `a` is spelled `short` or `long`.
fn matches_option(a: &str, short: &str, long: &str) -> (r: bool)
    ensures
        r == is_option(a@, short@, long@),
{
    same_text(a, short) || same_text(a, long)
}

/// A copy of a string.
fn copy_text(s: &str) -> (r: String)
    ensures
        r@ == s@,
{
    String::from_str(s)
}

impl Args {
    /// Parse the command line; the first word is the program's name.
    pub fn parse(args: &[String]) -> (r: Result<Self, String>)
        ensures
            match r {
                Ok(a) => parse_args(args@.map_values(|s: String| s@)) == Ok::<ArgsModel, Seq<char>>(a@),
                Err(e) => parse_args(args@.map_values(|s: String| s@)) == Err::<ArgsModel, Seq<char>>(e@),
            },
    {
        let ghost words = args@.map_values(|s: String| s@);
        let mut mode = Mode::Parse;
        let mut input_file: Option<String> = None;
        let mut output_file: Option<String> = None;
        let mut verbose = false;
        let mut no_checksum = false;
        let mut i: usize = 1;
        while i < args.len()
            invariant
                1 <= i,
                i <= args@.len() || args@.len() == 0,
                words == args@.map_values(|s: String| s@),
                parse_args(words) == read_args(
                    words,
                    i as int,
                    (mode, opt_text(input_file), opt_text(output_file), verbose, no_checksum),
                ),
            decreases args@.len() - i,
        {
            let arg = args[i].as_str();
            assert(arg@ == words[i as int]);
            if matches_option(arg, "-h", "--help") {
                mode = Mode::Help;
            } else if matches_option(arg, "-v", "--version") {
                mode = Mode::Version;
            } else if matches_option(arg, "-p", "--parse") {
                mode = Mode::Parse;
            } else if matches_option(arg, "-g", "--generate") {
                mode = Mode::Generate;
            } else if same_text(arg, "--validate") {
                mode = Mode::Validate;
            } else if same_text(arg, "--stats") {
                mode = Mode::Stats;
            } else if matches_option(arg, "-i", "--input") {
                if i + 1 < args.len() {
                    input_file = Some(copy_text(args[i + 1].as_str()));
                    i += 1;
                } else {
                    return Err(String::from_str("Missing argument for --input"));
                }
            } else if matches_option(arg, "-o", "--output") {
                if i + 1 < args.len() {
                    output_file = Some(copy_text(args[i + 1].as_str()));
                    i += 1;
                } else {
                    return Err(String::from_str("Missing argument for --output"));
                }
            } else if same_text(arg, "--verbose") {
                verbose = true;
            } else if same_text(arg, "--no-checksum") {
                no_checksum = true;
            } else if arg.unicode_len() > 0 && arg.get_char(0) == '-' {
                let mut e = String::from_str("Unknown option: ");
                e.append(arg);
                return Err(e);
            } else if input_file.is_none() {
                input_file = Some(copy_text(arg));
            } else if output_file.is_none() {
                output_file = Some(copy_text(arg));
            } else {
                let mut e = String::from_str("Unexpected argument: ");
                e.append(arg);
                return Err(e);
            }
            i += 1;
        }
        Ok(Args { mode, input_file, output_file, verbose, no_checksum })
    }
}

/// The five sample packets the tool generates, as type, sequence number and payload.
pub open spec fn sample_spec() -> Seq<(PacketType, u32, Seq<u8>)> {
    seq![
        (PacketType::Data, 0u32, seq![0x01u8, 0x02u8, 0x03u8, 0x04u8, 0x05u8]),
        (PacketType::Acknowledgment, 1u32, seq![0xAAu8]),
        (PacketType::Control, 2u32, seq![0x10u8, 0x20u8]),
        (PacketType::Heartbeat, 3u32, Seq::empty()),
        (PacketType::Data, 4u32, seq![0xDEu8, 0xADu8, 0xBEu8, 0xEFu8]),
    ]
}

/// The sample packets the tool writes in generate mode.
pub fn sample_packets() -> (ps: Vec<Packet>)
    ensures
        ps@.len() == sample_spec().len(),
        forall|i: int|
            0 <= i < ps@.len() ==> {
                let (t, seq_no, payload) = #[trigger] sample_spec()[i];
                &&& ps@[i].payload@ == payload
                &&& ps@[i].header == sealed_header(t, seq_no, payload.len() as u32)
            },
{
    let mut ps: Vec<Packet> = Vec::new();
    ps.push(Packet::new(PacketType::Data, vec![0x01, 0x02, 0x03, 0x04, 0x05]));
    ps.push(Packet::with_sequence(PacketType::Acknowledgment, vec![0xAA], 1));
    ps.push(Packet::with_sequence(PacketType::Control, vec![0x10, 0x20], 2));
    ps.push(Packet::with_sequence(PacketType::Heartbeat, Vec::new(), 3));
    ps.push(Packet::with_sequence(PacketType::Data, vec![0xDE, 0xAD, 0xBE, 0xEF], 4));
    assert(ps@[0].payload@ =~= sample_spec()[0].2);
    assert(ps@[1].payload@ =~= sample_spec()[1].2);
    assert(ps@[2].payload@ =~= sample_spec()[2].2);
    assert(ps@[3].payload@ =~= sample_spec()[3].2);
    assert(ps@[4].payload@ =~= sample_spec()[4].2);
    ps
}

/// How many of the packets pass validation.
pub open spec fn valid_count(ps: Seq<Packet>) -> nat
    decreases ps.len(),
{
    if ps.len() == 0 {
        0
    } else {
        let p = ps.last();
        valid_count(ps.drop_last()) + if packet_check(p.header, p.payload@.len()) is Ok {
            1nat
        } else {
            0nat
        }
    }
}

/// Count the packets that pass validation and those that fail it.
pub fn tally_validation(packets: &[Packet]) -> (r: (usize, usize))
    ensures
        r.0 == valid_count(packets@),
        r.0 + r.1 == packets@.len(),
{
    let mut valid_count_so_far: usize = 0;
    let mut invalid_count: usize = 0;
    let mut i: usize = 0;
    while i < packets.len()
        invariant
            i <= packets@.len(),
            valid_count_so_far == valid_count(packets@.subrange(0, i as int)),
            valid_count_so_far + invalid_count == i,
        decreases packets@.len() - i,
    {
        assert(packets@.subrange(0, i + 1).drop_last() == packets@.subrange(0, i as int));
        match packets[i].validate() {
            Ok(()) => {
                valid_count_so_far += 1;
            },
            Err(_) => {
                invalid_count += 1;
            },
        }
        i += 1;
    }
    assert(packets@.subrange(0, i as int) == packets@);
    (valid_count_so_far, invalid_count)
}

/// The four flag letters: `E`, `C`, `F`, `L` for a set flag, `-` for a clear one.
pub open spec fn flag_letters_spec(f: PacketFlags) -> Seq<char> {
    seq![
        if f.encrypted { 'E' } else { '-' },
        if f.compressed { 'C' } else { '-' },
        if f.fragmented { 'F' } else { '-' },
        if f.last_fragment { 'L' } else { '-' },
    ]
}

/// The four flag letters of a packet's flags.
pub fn flag_letters(f: &PacketFlags) -> (s: String)
    ensures
        s@ == flag_letters_spec(*f),
{
    proof {
        reveal_strlit("E");
        reveal_strlit("C");
        reveal_strlit("F");
        reveal_strlit("L");
        reveal_strlit("-");
    }
    let mut s = String::new();
    s.append(if f.encrypted { "E" } else { "-" });
    s.append(if f.compressed { "C" } else { "-" });
    s.append(if f.fragmented { "F" } else { "-" });
    s.append(if f.last_fragment { "L" } else { "-" });
    assert(s@ =~= flag_letters_spec(*f));
    s
}

/// Bytes as two-digit uppercase hexadecimal numbers separated by single spaces.
pub open spec fn hex_list(b: Seq<u8>) -> Seq<char>
    decreases b.len(),
{
    if b.len() == 0 {
        Seq::empty()
    } else if b.len() == 1 {
        hex_digits(b[0] as nat, 2)
    } else {
        hex_list(b.drop_last()) + " "@ + hex_digits(b.last() as nat, 2)
    }
}

/// The payload bytes as hexadecimal numbers separated by spaces.
pub fn hex_bytes(b: &[u8]) -> (s: String)
    ensures
        s@ == hex_list(b@),
{
    let mut s = String::new();
    let mut i: usize = 0;
    while i < b.len()
        invariant
            i <= b@.len(),
            s@ == hex_list(b@.subrange(0, i as int)),
        decreases b@.len() - i,
    {
        let ghost prefix = b@.subrange(0, i + 1);
        assert(prefix.drop_last() == b@.subrange(0, i as int));
        if i > 0 {
            s.append(" ");
        } else {
            assert(s@ == Seq::<char>::empty());
        }
        append_hex(&mut s, b[i] as u64, 2);
        i += 1;
        assert(s@ =~= hex_list(prefix));
    }
    assert(b@.subrange(0, i as int) == b@);
    s
}

/// The hexadecimal listing of `n` bytes is `3n - 1` characters long: byte `k` is written as
/// its two hexadecimal digits at positions `3k` and `3k + 1`, and a space follows every byte
/// but the last.
pub proof fn lemma_hex_list_layout(b: Seq<u8>)
    ensures
        b.len() == 0 ==> hex_list(b).len() == 0,
        b.len() > 0 ==> hex_list(b).len() == 3 * b.len() - 1,
        forall|k: int|
            0 <= k < b.len() ==> #[trigger] hex_list(b).subrange(3 * k, 3 * k + 2) == hex_digits(
                b[k] as nat,
                2,
            ),
        forall|k: int| 0 <= k < b.len() - 1 ==> #[trigger] hex_list(b)[3 * k + 2] == ' ',
    decreases b.len(),
{
    reveal_strlit(" ");
    if b.len() > 1 {
        let init = b.drop_last();
        lemma_hex_list_layout(init);
        let h = hex_list(b);
        let hi = hex_list(init);
        crate::text::lemma_hex_reads_back(b.last() as nat, 2);
        assert(h == hi + " "@ + hex_digits(b.last() as nat, 2));
        assert forall|k: int| 0 <= k < b.len() implies #[trigger] h.subrange(3 * k, 3 * k + 2)
            == hex_digits(b[k] as nat, 2) by {
            if k < b.len() - 1 {
                assert(init[k] == b[k]);
                assert(hi.subrange(3 * k, 3 * k + 2) == hex_digits(init[k] as nat, 2));
                assert(h.subrange(3 * k, 3 * k + 2) =~= hi.subrange(3 * k, 3 * k + 2));
            } else {
                assert(h.subrange(3 * k, 3 * k + 2) =~= hex_digits(b.last() as nat, 2));
            }
        }
        assert forall|k: int| 0 <= k < b.len() - 1 implies #[trigger] h[3 * k + 2] == ' ' by {
            if k < b.len() - 2 {
                assert(h[3 * k + 2] == hi[3 * k + 2]);
            }
        }
    } else if b.len() == 1 {
        crate::text::lemma_hex_reads_back(b[0] as nat, 2);
        assert(hex_list(b).subrange(0, 2) =~= hex_digits(b[0] as nat, 2));
    }
}

} // verus!
