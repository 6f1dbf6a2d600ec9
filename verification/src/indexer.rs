//! The decisions behind running Sorbet and keeping its outputs in a cache
//! directory.
use vstd::prelude::*;

use crate::autogen::AutogenParseError;
use crate::cfg_text::CfgParseError;
use crate::parse_tree::ParseTreeError;
use crate::symbol_table::SymbolTableParseError;
use crate::text::{
    append_str, has_prefix, split_whitespace, split_ws, starts_with_str, str_eq,
    str_views, string_from_chars, to_chars, views,
};

verus! {

broadcast use {vstd::seq_lib::group_seq_properties, vstd::string::group_string_axioms};

/// How Sorbet is run: a program and the arguments that come before `tc`
/// (`bundle exec srb` runs `bundle` with `exec srb`).
#[derive(Debug, Clone)]
pub struct SrbCommand {
    program: String,
    prefix_args: Vec<String>,
}

/// Model of a [`SrbCommand`].
pub struct CommandModel {
    pub program: Seq<char>,
    pub prefix_args: Seq<Seq<char>>,
}

impl View for SrbCommand {
    type V = CommandModel;

    closed spec fn view(&self) -> CommandModel {
        CommandModel { program: self.program@, prefix_args: str_views(self.prefix_args@) }
    }
}

/// Why indexing or loading failed.
#[derive(Debug)]
pub enum IndexError {
    Io(String),
    CacheRead(String, String),
    SorbetExec(String),
    SorbetOutput(String),
    CfgParse(CfgParseError),
    SymbolParse(SymbolTableParseError),
    AutogenParse(AutogenParseError),
    ParseTree(ParseTreeError),
}

/// What to do to get a project.
#[derive(Debug, Clone, Copy, PartialEq, Eq, Structural)]
pub enum LoadPlan {
    /// Load the outputs kept in the cache.
    FromCache,
    /// Run Sorbet again and refresh the cache.
    Index,
}

/// The command `srb`.
pub open spec fn default_command() -> CommandModel {
    CommandModel { program: "srb"@, prefix_args: seq![] }
}

/// The command a command line names: its first word is the program and
/// the other words come before `tc`; a line with no words names `srb`.
pub open spec fn spec_command(line: Seq<char>) -> CommandModel {
    let parts = split_ws(line);
    if parts.len() == 0 {
        default_command()
    } else {
        CommandModel { program: parts[0], prefix_args: parts.drop_first() }
    }
}

impl Default for SrbCommand {
    /// The command `srb`.
    fn default() -> (r: SrbCommand)
        ensures
            r@ == default_command(),
    {
        let r = SrbCommand { program: String::from_str("srb"), prefix_args: Vec::new() };
        assert(str_views(r.prefix_args@) =~= Seq::<Seq<char>>::empty());
        r
    }
}

impl SrbCommand {
    /// The command a command line names, split at whitespace: `bundle exec
    /// srb` runs `bundle` with `exec srb` before `tc`.
    pub fn new(command: &str) -> (r: SrbCommand)
        ensures
            r@ == spec_command(command@),
    {
        let parts = split_whitespace(&to_chars(command));
        if parts.len() == 0 {
            return SrbCommand::default();
        }
        let program = string_from_chars(&parts[0]);
        let mut prefix_args: Vec<String> = Vec::new();
        let mut i: usize = 1;
        while i < parts.len()
            invariant
                1 <= i <= parts.len(),
                prefix_args.len() == i - 1,
                forall|k: int| 0 <= k < i - 1 ==> (#[trigger] prefix_args@[k])@ == parts@[k + 1]@,
            decreases parts.len() - i,
        {
            prefix_args.push(string_from_chars(&parts[i]));
            i += 1;
        }
        assert(str_views(prefix_args@) =~= views(parts@).drop_first());
        SrbCommand { program, prefix_args }
    }

    /// The program to run.
    pub fn program(&self) -> (r: &String)
        ensures
            r@ == self@.program,
    {
        &self.program
    }

    /// The arguments of a run with `extra_args`: the prefix arguments,
    /// `tc`, the extra arguments, then `--no-error-count`.
    pub fn command_args(&self, extra_args: &Vec<String>) -> (r: Vec<String>)
        ensures
            str_views(r@) == self@.prefix_args + seq!["tc"@] + str_views(extra_args@) + seq![
                "--no-error-count"@,
            ],
    {
        let mut r: Vec<String> = Vec::new();
        let n = self.prefix_args.len();
        let mut i: usize = 0;
        while i < n
            invariant
                i <= n,
                n == self.prefix_args.len(),
                r.len() == i,
                forall|k: int| 0 <= k < i ==> (#[trigger] r@[k])@ == self.prefix_args@[k]@,
            decreases n - i,
        {
            r.push(self.prefix_args[i].clone());
            i += 1;
        }
        let tc = String::from_str("tc");
        proof {
            reveal_strlit("tc");
        }
        r.push(tc);
        let mut j: usize = 0;
        while j < extra_args.len()
            invariant
                j <= extra_args.len(),
                r.len() == n + 1 + j,
                forall|k: int| 0 <= k < n ==> (#[trigger] r@[k])@ == self.prefix_args@[k]@,
                r@[n as int]@ == "tc"@,
                forall|k: int| 0 <= k < j ==> (#[trigger] r@[n + 1 + k])@ == extra_args@[k]@,
            decreases extra_args.len() - j,
        {
            r.push(extra_args[j].clone());
            j += 1;
        }
        let last = String::from_str("--no-error-count");
        r.push(last);
        let ghost want = self@.prefix_args + seq!["tc"@] + str_views(extra_args@) + seq![
            "--no-error-count"@,
        ];
        assert(want.len() == r@.len());
        assert forall|k: int| 0 <= k < r@.len() implies str_views(r@)[k] == want[k] by {
            if k < n {
                assert(want[k] == self@.prefix_args[k]);
            } else if k == n {
                assert(want[k] == "tc"@);
            } else if k < n + 1 + extra_args.len() {
                assert(want[k] == str_views(extra_args@)[k - n - 1]);
                assert(r@[n + 1 + (k - n - 1)] == r@[k]);
            } else {
                assert(want[k] == "--no-error-count"@);
            }
        }
        assert(str_views(r@) =~= self@.prefix_args + seq!["tc"@] + str_views(extra_args@) + seq![
            "--no-error-count"@,
        ]);
        r
    }
}

/// `base` joined with the relative path `rel`: a `/` goes between them
/// unless `base` is empty or already ends with one.
pub open spec fn path_join(base: Seq<char>, rel: Seq<char>) -> Seq<char> {
    if base.len() == 0 || base.last() == '/' {
        base + rel
    } else {
        base + seq!['/'] + rel
    }
}

/// `base` joined with the relative path `rel`, as [`path_join`] says.
pub fn join_path(base: &str, rel: &str) -> (r: String)
    ensures
        r@ == path_join(base@, rel@),
{
    let mut v = to_chars(base);
    if v.len() > 0 && v[v.len() - 1] != '/' {
        v.push('/');
    }
    append_str(&mut v, rel);
    string_from_chars(&v)
}

/// The name of the cache directory.
pub open spec fn cache_dir_name() -> Seq<char> {
    ".srb-lens"@
}

/// The cache directory of a project: `.srb-lens` under its root.
pub fn cache_dir(project_root: &str) -> (r: String)
    ensures
        r@ == path_join(project_root@, cache_dir_name()),
{
    join_path(project_root, ".srb-lens")
}

/// The file of the cache that holds the cfg-text output.
pub fn cfg_file(project_root: &str) -> (r: String)
    ensures
        r@ == path_join(path_join(project_root@, cache_dir_name()), "cfg.txt"@),
{
    join_path(cache_dir(project_root).as_str(), "cfg.txt")
}

/// The file of the cache that holds the symbol table.
pub fn symbols_file(project_root: &str) -> (r: String)
    ensures
        r@ == path_join(path_join(project_root@, cache_dir_name()), "symbols.json"@),
{
    join_path(cache_dir(project_root).as_str(), "symbols.json")
}

/// The file of the cache that holds the autogen output.
pub fn autogen_file(project_root: &str) -> (r: String)
    ensures
        r@ == path_join(path_join(project_root@, cache_dir_name()), "autogen.txt"@),
{
    join_path(cache_dir(project_root).as_str(), "autogen.txt")
}

/// The file of the cache that holds the method locations.
pub fn method_locs_file(project_root: &str) -> (r: String)
    ensures
        r@ == path_join(path_join(project_root@, cache_dir_name()), "method-locs.json"@),
{
    join_path(cache_dir(project_root).as_str(), "method-locs.json")
}

/// The cache is usable only when both the cfg-text and the symbol-table
/// files are there.
pub fn cache_exists(cfg_exists: bool, symbols_exists: bool) -> (r: bool)
    ensures
        r == (cfg_exists && symbols_exists),
{
    cfg_exists && symbols_exists
}

/// The cache is stale when its cfg-text file's time is unknown, or when a
/// Ruby file is newer; times are in nanoseconds since the Unix epoch.
pub fn cache_stale(cache_mtime: Option<u128>, newest_rb_mtime: Option<u128>) -> (r: bool)
    ensures
        r == match cache_mtime {
            None => true,
            Some(c) => match newest_rb_mtime {
                Some(t) => t > c,
                None => false,
            },
        },
{
    match cache_mtime {
        None => true,
        Some(c) => match newest_rb_mtime {
            Some(t) => t > c,
            None => false,
        },
    }
}

/// What to do to get a project: load the cache when it exists and is
/// fresh, else index again.
pub fn load_or_index(cache_exists: bool, cache_stale: bool) -> (r: LoadPlan)
    ensures
        r == (if cache_exists && !cache_stale {
            LoadPlan::FromCache
        } else {
            LoadPlan::Index
        }),
{
    if cache_exists && !cache_stale {
        LoadPlan::FromCache
    } else {
        LoadPlan::Index
    }
}

/// The directories whose Ruby files do not count for staleness.
pub open spec fn skipped_dir_names() -> Seq<Seq<char>> {
    seq!["vendor"@, "node_modules"@, "tmp"@, "log"@, ".git"@, ".srb-lens"@, "sorbet"@]
}

/// A directory skipped while looking for Ruby files: a hidden one, or one
/// of [`skipped_dir_names`].
pub open spec fn spec_skip_dir(name: Seq<char>) -> bool {
    has_prefix(name, seq!['.']) || skipped_dir_names().contains(name)
}

/// Whether the directory `name` is skipped, as [`spec_skip_dir`] says.
pub fn skip_dir(name: &str) -> (r: bool)
    ensures
        r == spec_skip_dir(name@),
{
    proof {
        reveal_strlit(".");
        assert("."@ == seq!['.']);
    }
    let n = to_chars(name);
    let hidden = starts_with_str(&n, ".");
    let listed = str_eq(name, "vendor") || str_eq(name, "node_modules") || str_eq(name, "tmp")
        || str_eq(name, "log") || str_eq(name, ".git") || str_eq(name, ".srb-lens") || str_eq(
        name,
        "sorbet",
    );
    proof {
        let s = skipped_dir_names();
        if listed {
            if name@ == "vendor"@ {
                assert(s[0] == name@);
            } else if name@ == "node_modules"@ {
                assert(s[1] == name@);
            } else if name@ == "tmp"@ {
                assert(s[2] == name@);
            } else if name@ == "log"@ {
                assert(s[3] == name@);
            } else if name@ == ".git"@ {
                assert(s[4] == name@);
            } else if name@ == ".srb-lens"@ {
                assert(s[5] == name@);
            } else {
                assert(s[6] == name@);
            }
        } else {
            assert forall|k: int| 0 <= k < s.len() implies s[k] != name@ by {}
        }
    }
    hidden || listed
}

/// What a Sorbet run gives: its standard output, unless the output is
/// empty and Sorbet failed, which is an error that quotes the exit status
/// and the standard error.
pub fn check_sorbet_output(stdout: String, success: bool, status: &str, stderr: &str) -> (r: Result<
    String,
    IndexError,
>)
    ensures
        match r {
            Ok(s) => s@ == stdout@ && !(stdout@.len() == 0 && !success),
            Err(IndexError::SorbetOutput(m)) => stdout@.len() == 0 && !success && m@
                == "sorbet exited with "@ + status@ + " and empty stdout. stderr: "@ + stderr@,
            Err(_) => false,
        },
{
    if stdout.as_str().unicode_len() == 0 && !success {
        let mut m: Vec<char> = Vec::new();
        append_str(&mut m, "sorbet exited with ");
        append_str(&mut m, status);
        append_str(&mut m, " and empty stdout. stderr: ");
        append_str(&mut m, stderr);
        Err(IndexError::SorbetOutput(string_from_chars(&m)))
    } else {
        Ok(stdout)
    }
}

} // verus!
