//! Command-line arguments: the options `mcp-sync` takes, how `--target`
//! lists are read, and the errors for arguments it does not accept.
use vstd::prelude::*;
use crate::text::{is_ws, is_whitespace, chars_of, string_of, push_str, str_eq};
use crate::targets::{kind_name, registry, TargetKind, available_targets, texts_view};
use crate::targets::zed::join;

verus! {

/// What `str::to_lowercase` gives for a text (Unicode lower case).
pub uninterp spec fn lowercase_of(s: Seq<char>) -> Seq<char>;

/// ASCII text with its upper-case letters made lower case.
pub open spec fn ascii_lower(s: Seq<char>) -> Seq<char> {
    s.map_values(|c: char| if 'A' <= c && c <= 'Z' { ((c as u32) + 32) as char } else { c })
}

/// `str::to_lowercase` (Unicode lower case; on ASCII text, the ASCII letters
/// lower-cased).
#[verifier::external_body]
fn lowercase(s: &str) -> (r: String)
    ensures
        r@ == lowercase_of(s@),
        (forall|i: int| 0 <= i < s@.len() ==> (#[trigger] s@[i] as u32) < 128) ==> r@ == ascii_lower(s@),
{
    s.to_lowercase()
}

/// The options of a synchronization run.
pub struct CliArgs {
    pub watch: bool,
    pub dry_run: bool,
    pub targets: Vec<String>,
    pub config_path: Option<String>,
    pub log_path: Option<String>,
    pub quiet: bool,
}

/// The view of `CliArgs`.
pub struct CliArgsV {
    pub watch: bool,
    pub dry_run: bool,
    pub targets: Seq<Seq<char>>,
    pub config_path: Option<Seq<char>>,
    pub log_path: Option<Seq<char>>,
    pub quiet: bool,
}

impl View for CliArgs {
    type V = CliArgsV;

    open spec fn view(&self) -> CliArgsV {
        CliArgsV {
            watch: self.watch,
            dry_run: self.dry_run,
            targets: texts_view(self.targets@),
            config_path: crate::config::opt_str(self.config_path),
            log_path: crate::config::opt_str(self.log_path),
            quiet: self.quiet,
        }
    }
}

/// What the command line asks for.
pub enum CliRequest {
    /// Synchronize with these options.
    Run(CliArgs),
    /// Print the usage text.
    Help,
    /// Print the version.
    Version,
}

/// The view of a `CliRequest`.
pub enum CliRequestV {
    Run(CliArgsV),
    Help,
    Version,
}

impl View for CliRequest {
    type V = CliRequestV;

    open spec fn view(&self) -> CliRequestV {
        match self {
            CliRequest::Run(a) => CliRequestV::Run(a@),
            CliRequest::Help => CliRequestV::Help,
            CliRequest::Version => CliRequestV::Version,
        }
    }
}

/// The options before any argument is read.
pub open spec fn no_options() -> CliArgsV {
    CliArgsV { watch: false, dry_run: false, targets: seq![], config_path: None, log_path: None, quiet: false }
}

/// `s` without its leading white space (`str::trim_start`).
pub open spec fn trim_start(s: Seq<char>) -> Seq<char>
    decreases s.len(),
{
    if s.len() > 0 && is_ws(s[0]) {
        trim_start(s.drop_first())
    } else {
        s
    }
}

/// `s` without leading and trailing white space (`str::trim`).
pub open spec fn trim(s: Seq<char>) -> Seq<char> {
    crate::targets::zed::trim_end(trim_start(s))
}

/// The pieces of `s` between the separators (`str::split`): one more piece
/// than there are separators, empty pieces included.
pub open spec fn split_pieces(s: Seq<char>, sep: char) -> Seq<Seq<char>>
    decreases s.len(),
{
    if s.len() == 0 {
        seq![seq![]]
    } else {
        let rest = split_pieces(s.drop_last(), sep);
        if s.last() == sep {
            rest.push(seq![])
        } else {
            rest.update(rest.len() - 1, rest.last().push(s.last()))
        }
    }
}

proof fn lemma_split_pieces_nonempty(s: Seq<char>, sep: char)
    ensures
        split_pieces(s, sep).len() >= 1,
    decreases s.len(),
{
    if s.len() > 0 {
        lemma_split_pieces_nonempty(s.drop_last(), sep);
    }
}

/// The target names a `--target` value lists: its comma-separated pieces,
/// trimmed and lower-cased, the empty ones dropped.
pub open spec fn target_list(v: Seq<char>) -> Seq<Seq<char>> {
    split_pieces(v, ',').map_values(|p: Seq<char>| lowercase_of(trim(p))).filter(|t: Seq<char>| t.len() > 0)
}

/// The names of the registered clients.
pub open spec fn valid_names() -> Seq<Seq<char>> {
    registry().map_values(|k: TargetKind| kind_name(k))
}

/// The first listed target that names no registered client.
pub open spec fn first_invalid(ts: Seq<Seq<char>>) -> Option<Seq<char>>
    decreases ts.len(),
{
    if ts.len() == 0 {
        None
    } else {
        match first_invalid(ts.drop_last()) {
            Some(t) => Some(t),
            None => if valid_names().contains(ts.last()) {
                None
            } else {
                Some(ts.last())
            },
        }
    }
}

/// The error for a target that names no registered client.
pub open spec fn invalid_target_message(t: Seq<char>) -> Seq<char> {
    "Invalid target '"@ + t + "'. Valid targets are: "@ + join(valid_names(), ", "@)
}

/// The error for an argument that is not an option.
pub open spec fn unknown_argument_message(a: Seq<char>) -> Seq<char> {
    "Unknown argument '"@ + a + "'. Use --help for usage."@
}

/// What the arguments from index `i` on ask for, with the options `acc`
/// read so far: options are read in order; `--help` and `--version` answer
/// at once; a missing option value or an unknown argument is an error; at
/// the end, every listed target must name a registered client.
pub open spec fn parse_from(args: Seq<Seq<char>>, i: int, acc: CliArgsV) -> Result<CliRequestV, Seq<char>>
    decreases args.len() - i,
{
    if i < 0 || i >= args.len() {
        match first_invalid(acc.targets) {
            Some(t) => Err(invalid_target_message(t)),
            None => Ok(CliRequestV::Run(acc)),
        }
    } else {
        let a = args[i];
        if a == "--watch"@ || a == "-w"@ {
            parse_from(args, i + 1, CliArgsV { watch: true, ..acc })
        } else if a == "--dry-run"@ || a == "-n"@ {
            parse_from(args, i + 1, CliArgsV { dry_run: true, ..acc })
        } else if a == "--quiet"@ || a == "-q"@ {
            parse_from(args, i + 1, CliArgsV { quiet: true, ..acc })
        } else if a == "--target"@ || a == "-t"@ {
            if i + 1 < args.len() {
                parse_from(args, i + 2, CliArgsV { targets: acc.targets + target_list(args[i + 1]), ..acc })
            } else {
                Err("--target requires an argument"@)
            }
        } else if a == "--config"@ || a == "-c"@ {
            if i + 1 < args.len() {
                parse_from(args, i + 2, CliArgsV { config_path: Some(args[i + 1]), ..acc })
            } else {
                Err("--config requires a path argument"@)
            }
        } else if a == "--log-file"@ || a == "-l"@ {
            if i + 1 < args.len() {
                parse_from(args, i + 2, CliArgsV { log_path: Some(args[i + 1]), ..acc })
            } else {
                Err("--log-file requires a path argument"@)
            }
        } else if a == "--help"@ || a == "-h"@ {
            Ok(CliRequestV::Help)
        } else if a == "--version"@ || a == "-v"@ || a == "-V"@ {
            Ok(CliRequestV::Version)
        } else {
            Err(unknown_argument_message(a))
        }
    }
}

/// What the command line (without the program name) asks for.
pub open spec fn parse_args(args: Seq<Seq<char>>) -> Result<CliRequestV, Seq<char>> {
    parse_from(args, 0, no_options())
}

/// The option spellings told apart by their length and first letters.
proof fn lemma_option_names()
    ensures
        "--watch"@.len() == 7 && "--watch"@[1] == '-' && "--watch"@[2] == 'w',
        "-w"@.len() == 2 && "-w"@[1] == 'w',
        "--dry-run"@.len() == 9 && "--dry-run"@[1] == '-' && "--dry-run"@[2] == 'd',
        "-n"@.len() == 2 && "-n"@[1] == 'n',
        "--quiet"@.len() == 7 && "--quiet"@[1] == '-' && "--quiet"@[2] == 'q',
        "-q"@.len() == 2 && "-q"@[1] == 'q',
        "--target"@.len() == 8 && "--target"@[1] == '-' && "--target"@[2] == 't',
        "-t"@.len() == 2 && "-t"@[1] == 't',
        "--config"@.len() == 8 && "--config"@[1] == '-' && "--config"@[2] == 'c',
        "-c"@.len() == 2 && "-c"@[1] == 'c',
        "--log-file"@.len() == 10 && "--log-file"@[1] == '-' && "--log-file"@[2] == 'l',
        "-l"@.len() == 2 && "-l"@[1] == 'l',
        "--help"@.len() == 6 && "--help"@[1] == '-' && "--help"@[2] == 'h',
        "-h"@.len() == 2 && "-h"@[1] == 'h',
        "--version"@.len() == 9 && "--version"@[1] == '-' && "--version"@[2] == 'v',
        "-v"@.len() == 2 && "-v"@[1] == 'v',
        "-V"@.len() == 2 && "-V"@[1] == 'V',
{
    reveal_strlit("--watch");
    reveal_strlit("-w");
    reveal_strlit("--dry-run");
    reveal_strlit("-n");
    reveal_strlit("--quiet");
    reveal_strlit("-q");
    reveal_strlit("--target");
    reveal_strlit("-t");
    reveal_strlit("--config");
    reveal_strlit("-c");
    reveal_strlit("--log-file");
    reveal_strlit("-l");
    reveal_strlit("--help");
    reveal_strlit("-h");
    reveal_strlit("--version");
    reveal_strlit("-v");
    reveal_strlit("-V");
}

/// Parsing from position `i` reads only the arguments from `i` on.
proof fn lemma_parse_frame(a1: Seq<Seq<char>>, a2: Seq<Seq<char>>, i: int, acc: CliArgsV)
    requires
        a1.len() == a2.len(),
        forall|t: int| i <= t < a1.len() ==> a1[t] == a2[t],
    ensures
        parse_from(a1, i, acc) == parse_from(a2, i, acc),
    decreases a1.len() - i,
{
    if 0 <= i < a1.len() {
        lemma_parse_frame(a1, a2, i + 1, CliArgsV { watch: true, ..acc });
        lemma_parse_frame(a1, a2, i + 1, CliArgsV { dry_run: true, ..acc });
        lemma_parse_frame(a1, a2, i + 1, CliArgsV { quiet: true, ..acc });
        if i + 1 < a1.len() {
            lemma_parse_frame(a1, a2, i + 2, CliArgsV { targets: acc.targets + target_list(a1[i + 1]), ..acc });
            lemma_parse_frame(a1, a2, i + 2, CliArgsV { config_path: Some(a1[i + 1]), ..acc });
            lemma_parse_frame(a1, a2, i + 2, CliArgsV { log_path: Some(a1[i + 1]), ..acc });
        }
    }
}

/// What each switch does where it is read (at position `i`, with the
/// options `acc` read before it), in either spelling: `--watch`/`-w`,
/// `--dry-run`/`-n` and `--quiet`/`-q` turn their option on and reading
/// goes on with the next argument; `--help`/`-h` asks for the usage text and
/// `--version`/`-v`/`-V` for the version, whatever follows.
pub proof fn law_cli_switches(args: Seq<Seq<char>>, i: int, acc: CliArgsV)
    requires
        0 <= i < args.len(),
    ensures
        args[i] == "--watch"@ || args[i] == "-w"@
            ==> parse_from(args, i, acc) == parse_from(args, i + 1, CliArgsV { watch: true, ..acc }),
        args[i] == "--dry-run"@ || args[i] == "-n"@
            ==> parse_from(args, i, acc) == parse_from(args, i + 1, CliArgsV { dry_run: true, ..acc }),
        args[i] == "--quiet"@ || args[i] == "-q"@
            ==> parse_from(args, i, acc) == parse_from(args, i + 1, CliArgsV { quiet: true, ..acc }),
        args[i] == "--help"@ || args[i] == "-h"@ ==> parse_from(args, i, acc) == Ok::<CliRequestV, Seq<char>>(CliRequestV::Help),
        args[i] == "--version"@ || args[i] == "-v"@ || args[i] == "-V"@
            ==> parse_from(args, i, acc) == Ok::<CliRequestV, Seq<char>>(CliRequestV::Version),
{
    lemma_option_names();
}

/// What each option with a value does where it is read, in either spelling:
/// `--target`/`-t` adds the targets listed in the next argument,
/// `--config`/`-c` and `--log-file`/`-l` take the next argument as the
/// path, and reading goes on after that value; with no argument left for
/// the value, the command line is refused.
pub proof fn law_cli_valued_options(args: Seq<Seq<char>>, i: int, acc: CliArgsV)
    requires
        0 <= i < args.len(),
    ensures
        args[i] == "--target"@ || args[i] == "-t"@ ==> parse_from(args, i, acc) == if i + 1 < args.len() {
            parse_from(args, i + 2, CliArgsV { targets: acc.targets + target_list(args[i + 1]), ..acc })
        } else {
            Err("--target requires an argument"@)
        },
        args[i] == "--config"@ || args[i] == "-c"@ ==> parse_from(args, i, acc) == if i + 1 < args.len() {
            parse_from(args, i + 2, CliArgsV { config_path: Some(args[i + 1]), ..acc })
        } else {
            Err("--config requires a path argument"@)
        },
        args[i] == "--log-file"@ || args[i] == "-l"@ ==> parse_from(args, i, acc) == if i + 1 < args.len() {
            parse_from(args, i + 2, CliArgsV { log_path: Some(args[i + 1]), ..acc })
        } else {
            Err("--log-file requires a path argument"@)
        },
{
    lemma_option_names();
}

/// The long and the short spelling of each option are the same option:
/// whichever of the two stands at the position being read, the command
/// line means the same.
pub proof fn law_cli_spellings_agree(args: Seq<Seq<char>>, i: int, acc: CliArgsV)
    requires
        0 <= i < args.len(),
    ensures
        parse_from(args.update(i, "--watch"@), i, acc) == parse_from(args.update(i, "-w"@), i, acc),
        parse_from(args.update(i, "--dry-run"@), i, acc) == parse_from(args.update(i, "-n"@), i, acc),
        parse_from(args.update(i, "--quiet"@), i, acc) == parse_from(args.update(i, "-q"@), i, acc),
        parse_from(args.update(i, "--target"@), i, acc) == parse_from(args.update(i, "-t"@), i, acc),
        parse_from(args.update(i, "--config"@), i, acc) == parse_from(args.update(i, "-c"@), i, acc),
        parse_from(args.update(i, "--log-file"@), i, acc) == parse_from(args.update(i, "-l"@), i, acc),
        parse_from(args.update(i, "--help"@), i, acc) == parse_from(args.update(i, "-h"@), i, acc),
        parse_from(args.update(i, "--version"@), i, acc) == parse_from(args.update(i, "-v"@), i, acc),
{
    let longs = seq!["--watch"@, "--dry-run"@, "--quiet"@, "--target"@, "--config"@, "--log-file"@, "--help"@, "--version"@];
    let shorts = seq!["-w"@, "-n"@, "-q"@, "-t"@, "-c"@, "-l"@, "-h"@, "-v"@];
    assert forall|k: int| 0 <= k < 8 implies
        parse_from(args.update(i, #[trigger] longs[k]), i, acc) == parse_from(args.update(i, shorts[k]), i, acc) by {
        let a1 = args.update(i, longs[k]);
        let a2 = args.update(i, shorts[k]);
        law_cli_switches(a1, i, acc);
        law_cli_switches(a2, i, acc);
        law_cli_valued_options(a1, i, acc);
        law_cli_valued_options(a2, i, acc);
        lemma_parse_frame(a1, a2, i + 1, CliArgsV { watch: true, ..acc });
        lemma_parse_frame(a1, a2, i + 1, CliArgsV { dry_run: true, ..acc });
        lemma_parse_frame(a1, a2, i + 1, CliArgsV { quiet: true, ..acc });
        if i + 1 < args.len() {
            assert(a1[i + 1] == args[i + 1] && a2[i + 1] == args[i + 1]);
            lemma_parse_frame(a1, a2, i + 2, CliArgsV { targets: acc.targets + target_list(args[i + 1]), ..acc });
            lemma_parse_frame(a1, a2, i + 2, CliArgsV { config_path: Some(args[i + 1]), ..acc });
            lemma_parse_frame(a1, a2, i + 2, CliArgsV { log_path: Some(args[i + 1]), ..acc });
        }
    }
    assert(longs[0] == "--watch"@ && longs[1] == "--dry-run"@ && longs[2] == "--quiet"@ && longs[3] == "--target"@);
    assert(longs[4] == "--config"@ && longs[5] == "--log-file"@ && longs[6] == "--help"@ && longs[7] == "--version"@);
    assert(shorts[0] == "-w"@ && shorts[1] == "-n"@ && shorts[2] == "-q"@ && shorts[3] == "-t"@);
    assert(shorts[4] == "-c"@ && shorts[5] == "-l"@ && shorts[6] == "-h"@ && shorts[7] == "-v"@);
}

proof fn lemma_trim_start_skip(s: Seq<char>, k: int)
    requires
        0 <= k <= s.len(),
        forall|j: int| 0 <= j < k ==> is_ws(#[trigger] s[j]),
    ensures
        trim_start(s) == trim_start(s.subrange(k, s.len() as int)),
    decreases k,
{
    if k == 0 {
        assert(s.subrange(0, s.len() as int) =~= s);
    } else {
        assert(is_ws(s[0]));
        let t = s.drop_first();
        assert forall|j: int| 0 <= j < k - 1 implies is_ws(#[trigger] t[j]) by {
            assert(t[j] == s[j + 1]);
        }
        lemma_trim_start_skip(t, k - 1);
        assert(t.subrange(k - 1, t.len() as int) =~= s.subrange(k, s.len() as int));
    }
}

proof fn lemma_trim_end_skip(s: Seq<char>, k: int)
    requires
        0 <= k <= s.len(),
        forall|j: int| k <= j < s.len() ==> is_ws(#[trigger] s[j]),
    ensures
        crate::targets::zed::trim_end(s) == crate::targets::zed::trim_end(s.subrange(0, k)),
    decreases s.len() - k,
{
    if k == s.len() {
        assert(s.subrange(0, k) =~= s);
    } else {
        let t = s.drop_last();
        assert(is_ws(s[s.len() - 1]));
        assert forall|j: int| k <= j < t.len() implies is_ws(#[trigger] t[j]) by {
            assert(t[j] == s[j]);
        }
        lemma_trim_end_skip(t, k);
        assert(t.subrange(0, k) =~= s.subrange(0, k));
    }
}

/// `s` without leading and trailing white space.
pub fn trim_text(s: &Vec<char>) -> (r: Vec<char>)
    ensures
        r@ == trim(s@),
{
    let n = s.len();
    let mut a: usize = 0;
    while a < n && is_whitespace(s[a])
        invariant
            a <= n,
            n == s@.len(),
            forall|j: int| 0 <= j < a ==> is_ws(#[trigger] s@[j]),
        decreases n - a,
    {
        a = a + 1;
    }
    proof {
        lemma_trim_start_skip(s@, a as int);
    }
    let ghost t = s@.subrange(a as int, n as int);
    assert(trim_start(t) == t);
    let mut b: usize = n;
    while b > a && is_whitespace(s[b - 1])
        invariant
            a <= b <= n,
            n == s@.len(),
            t == s@.subrange(a as int, n as int),
            forall|j: int| b <= j < n ==> is_ws(#[trigger] s@[j]),
        decreases b,
    {
        b = b - 1;
    }
    proof {
        assert forall|j: int| (b - a) as int <= j < t.len() implies is_ws(#[trigger] t[j]) by {
            assert(t[j] == s@[j + a]);
        }
        lemma_trim_end_skip(t, (b - a) as int);
        let u = t.subrange(0, (b - a) as int);
        if u.len() > 0 {
            assert(u.last() == s@[b - 1]);
        }
        assert(crate::targets::zed::trim_end(u) == u);
    }
    let mut out: Vec<char> = Vec::new();
    let mut k: usize = a;
    while k < b
        invariant
            a <= k <= b,
            b <= n,
            n == s@.len(),
            out@ == s@.subrange(a as int, k as int),
        decreases b - k,
    {
        out.push(s[k]);
        k = k + 1;
        assert(out@ =~= s@.subrange(a as int, k as int));
    }
    assert(out@ =~= t.subrange(0, (b - a) as int));
    out
}

/// The pieces of `s` between the separators.
pub fn split_text(s: &Vec<char>, sep: char) -> (r: Vec<Vec<char>>)
    ensures
        r@.map_values(|p: Vec<char>| p@) == split_pieces(s@, sep),
{
    let mut pieces: Vec<Vec<char>> = Vec::new();
    let mut cur: Vec<char> = Vec::new();
    let mut i: usize = 0;
    assert(s@.subrange(0, 0) =~= seq![]);
    assert(pieces@.map_values(|p: Vec<char>| p@).push(cur@) =~= split_pieces(s@.subrange(0, 0), sep));
    while i < s.len()
        invariant
            i <= s@.len(),
            pieces@.map_values(|p: Vec<char>| p@).push(cur@) == split_pieces(s@.subrange(0, i as int), sep),
        decreases s@.len() - i,
    {
        let ghost before = pieces@.map_values(|p: Vec<char>| p@).push(cur@);
        assert(s@.subrange(0, i + 1).drop_last() =~= s@.subrange(0, i as int));
        if s[i] == sep {
            let done = cur;
            pieces.push(done);
            cur = Vec::new();
            assert(pieces@.map_values(|p: Vec<char>| p@).push(cur@) =~= before.push(seq![]));
        } else {
            cur.push(s[i]);
            assert(pieces@.map_values(|p: Vec<char>| p@).push(cur@) =~= before.update(before.len() - 1, before.last().push(s@[i as int])));
        }
        i = i + 1;
    }
    assert(s@.subrange(0, s@.len() as int) =~= s@);
    let ghost fin = pieces@.map_values(|p: Vec<char>| p@).push(cur@);
    pieces.push(cur);
    assert(pieces@.map_values(|p: Vec<char>| p@) =~= fin);
    pieces
}

/// The target names a `--target` value lists.
pub fn parse_target_list(v: &str) -> (r: Vec<String>)
    ensures
        texts_view(r@) == target_list(v@),
{
    let cs = chars_of(v);
    let pieces = split_text(&cs, ',');
    let ghost pv = pieces@.map_values(|p: Vec<char>| p@);
    let ghost lowered = pv.map_values(|p: Seq<char>| lowercase_of(trim(p)));
    let ghost pred = |t: Seq<char>| t.len() > 0;
    let mut out: Vec<String> = Vec::new();
    let mut i: usize = 0;
    assert(lowered.subrange(0, 0).filter(pred) =~= seq![]) by {
        reveal(Seq::filter);
    }
    while i < pieces.len()
        invariant
            i <= pieces@.len(),
            pv == pieces@.map_values(|p: Vec<char>| p@),
            lowered == pv.map_values(|p: Seq<char>| lowercase_of(trim(p))),
            pred == (|t: Seq<char>| t.len() > 0),
            texts_view(out@) == lowered.subrange(0, i as int).filter(pred),
        decreases pieces@.len() - i,
    {
        let t = trim_text(&pieces[i]);
        let ts = string_of(t.as_slice());
        let low = lowercase(ts.as_str());
        assert(low@ == lowered[i as int]);
        assert(lowered.subrange(0, i + 1).drop_last() =~= lowered.subrange(0, i as int));
        let ghost before = texts_view(out@);
        if chars_of(low.as_str()).len() > 0 {
            proof {
                reveal(Seq::filter);
            }
            out.push(low);
            assert(texts_view(out@) =~= before.push(lowered[i as int]));
        } else {
            proof {
                reveal(Seq::filter);
            }
        }
        i = i + 1;
    }
    assert(lowered.subrange(0, pieces@.len() as int) =~= lowered);
    out
}

/// Checks every listed target names a registered client; the error names
/// the first that does not.
pub fn validate_targets(targets: &Vec<String>) -> (r: Result<(), String>)
    ensures
        match first_invalid(texts_view(targets@)) {
            Some(t) => r matches Err(e) && e@ == invalid_target_message(t),
            None => r is Ok,
        },
{
    proof {
        reveal_strlit("Invalid target '");
        reveal_strlit("'. Valid targets are: ");
        reveal_strlit(", ");
    }
    let ghost tv = texts_view(targets@);
    let all = available_targets();
    let mut i: usize = 0;
    assert(tv.subrange(0, 0) =~= seq![]);
    while i < targets.len()
        invariant
            i <= targets@.len(),
            tv == texts_view(targets@),
            all@ == registry(),
            first_invalid(tv.subrange(0, i as int)) is None,
        decreases targets@.len() - i,
    {
        assert(tv.subrange(0, i + 1).drop_last() =~= tv.subrange(0, i as int));
        let t = targets[i].as_str();
        let mut found = false;
        let mut k: usize = 0;
        while k < all.len()
            invariant
                k <= all@.len(),
                all@ == registry(),
                found <==> exists|j: int| 0 <= j < k && kind_name(all@[j]) == t@,
            decreases all@.len() - k,
        {
            if str_eq(all[k].name(), t) {
                found = true;
            }
            k = k + 1;
        }
        proof {
            if found {
                let j = choose|j: int| 0 <= j < 4 && kind_name(all@[j]) == t@;
                assert(valid_names()[j] == t@);
            } else {
                assert forall|j: int| 0 <= j < valid_names().len() implies valid_names()[j] != t@ by {
                    assert(valid_names()[j] == kind_name(all@[j]));
                }
            }
        }
        if !found {
            let mut m: Vec<char> = Vec::new();
            push_str(&mut m, "Invalid target '");
            push_str(&mut m, t);
            push_str(&mut m, "'. Valid targets are: ");
            let mut k2: usize = 0;
            while k2 < all.len()
                invariant
                    k2 <= all@.len(),
                    all@ == registry(),
                    m@ == "Invalid target '"@ + t@ + "'. Valid targets are: "@ + join(valid_names().subrange(0, k2 as int), ", "@),
                decreases all@.len() - k2,
            {
                let ghost before = m@;
                assert(valid_names().subrange(0, k2 + 1).drop_last() =~= valid_names().subrange(0, k2 as int));
                if k2 > 0 {
                    push_str(&mut m, ", ");
                }
                push_str(&mut m, all[k2].name());
                k2 = k2 + 1;
                assert(m@ =~= "Invalid target '"@ + t@ + "'. Valid targets are: "@ + join(valid_names().subrange(0, k2 as int), ", "@));
            }
            assert(valid_names().subrange(0, 4) =~= valid_names());
            assert(first_invalid(tv.subrange(0, i + 1)) == Some(t@));
            proof {
                lemma_first_invalid_prefix(tv, i + 1);
            }
            return Err(string_of(m.as_slice()));
        }
        i = i + 1;
    }
    assert(tv.subrange(0, tv.len() as int) =~= tv);
    Ok(())
}

proof fn lemma_first_invalid_prefix(ts: Seq<Seq<char>>, m: int)
    requires
        0 <= m <= ts.len(),
        first_invalid(ts.subrange(0, m)) is Some,
    ensures
        first_invalid(ts) == first_invalid(ts.subrange(0, m)),
    decreases ts.len() - m,
{
    if m == ts.len() {
        assert(ts.subrange(0, m) =~= ts);
    } else {
        assert(ts.drop_last().subrange(0, m) =~= ts.subrange(0, m));
        lemma_first_invalid_prefix(ts.drop_last(), m);
    }
}

/// Appends copies of `src` to `dst`.
fn extend_texts(dst: &mut Vec<String>, src: &Vec<String>)
    ensures
        texts_view(final(dst)@) == texts_view(old(dst)@) + texts_view(src@),
{
    let ghost start = texts_view(dst@);
    let mut k: usize = 0;
    while k < src.len()
        invariant
            k <= src@.len(),
            texts_view(dst@) == start + texts_view(src@).subrange(0, k as int),
        decreases src@.len() - k,
    {
        let ghost before = texts_view(dst@);
        dst.push(src[k].clone());
        assert(texts_view(dst@) =~= before.push(src@[k as int]@));
        k = k + 1;
        assert(texts_view(dst@) =~= start + texts_view(src@).subrange(0, k as int));
    }
    assert(texts_view(src@).subrange(0, src@.len() as int) =~= texts_view(src@));
}

/// Reads the command line (without the program name).
pub fn parse_cli_args(args: &Vec<String>) -> (r: Result<CliRequest, String>)
    ensures
        match r {
            Ok(q) => parse_args(texts_view(args@)) == Ok::<CliRequestV, Seq<char>>(q@),
            Err(e) => parse_args(texts_view(args@)) == Err::<CliRequestV, Seq<char>>(e@),
        },
{
    proof {
        reveal_strlit("--watch");
        reveal_strlit("-w");
        reveal_strlit("--dry-run");
        reveal_strlit("-n");
        reveal_strlit("--quiet");
        reveal_strlit("-q");
        reveal_strlit("--target");
        reveal_strlit("-t");
        reveal_strlit("--config");
        reveal_strlit("-c");
        reveal_strlit("--log-file");
        reveal_strlit("-l");
        reveal_strlit("--help");
        reveal_strlit("-h");
        reveal_strlit("--version");
        reveal_strlit("-v");
        reveal_strlit("-V");
        reveal_strlit("--target requires an argument");
        reveal_strlit("--config requires a path argument");
        reveal_strlit("--log-file requires a path argument");
        reveal_strlit("Unknown argument '");
        reveal_strlit("'. Use --help for usage.");
    }
    let ghost av = texts_view(args@);
    let mut acc = CliArgs { watch: false, dry_run: false, targets: Vec::new(), config_path: None, log_path: None, quiet: false };
    assert(texts_view(acc.targets@) =~= seq![]);
    assert(acc@ =~= no_options());
    let mut i: usize = 0;
    while i < args.len()
        invariant
            i <= args@.len(),
            av == texts_view(args@),
            parse_args(av) == parse_from(av, i as int, acc@),
        decreases args@.len() - i,
    {
        let a = args[i].as_str();
        assert(a@ == av[i as int]);
        if str_eq(a, "--watch") || str_eq(a, "-w") {
            acc.watch = true;
            i = i + 1;
        } else if str_eq(a, "--dry-run") || str_eq(a, "-n") {
            acc.dry_run = true;
            i = i + 1;
        } else if str_eq(a, "--quiet") || str_eq(a, "-q") {
            acc.quiet = true;
            i = i + 1;
        } else if str_eq(a, "--target") || str_eq(a, "-t") {
            if i + 1 < args.len() {
                let more = parse_target_list(args[i + 1].as_str());
                extend_texts(&mut acc.targets, &more);
                i = i + 2;
            } else {
                return Err("--target requires an argument".to_owned());
            }
        } else if str_eq(a, "--config") || str_eq(a, "-c") {
            if i + 1 < args.len() {
                acc.config_path = Some(args[i + 1].clone());
                i = i + 2;
            } else {
                return Err("--config requires a path argument".to_owned());
            }
        } else if str_eq(a, "--log-file") || str_eq(a, "-l") {
            if i + 1 < args.len() {
                acc.log_path = Some(args[i + 1].clone());
                i = i + 2;
            } else {
                return Err("--log-file requires a path argument".to_owned());
            }
        } else if str_eq(a, "--help") || str_eq(a, "-h") {
            return Ok(CliRequest::Help);
        } else if str_eq(a, "--version") || str_eq(a, "-v") || str_eq(a, "-V") {
            return Ok(CliRequest::Version);
        } else {
            let mut m: Vec<char> = Vec::new();
            push_str(&mut m, "Unknown argument '");
            push_str(&mut m, a);
            push_str(&mut m, "'. Use --help for usage.");
            assert(m@ =~= unknown_argument_message(a@));
            return Err(string_of(m.as_slice()));
        }
    }
    match validate_targets(&acc.targets) {
        Ok(()) => Ok(CliRequest::Run(acc)),
        Err(e) => Err(e),
    }
}

} // verus!
