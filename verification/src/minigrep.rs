//! Line search: the lines of a text that contain a query string.

use crate::text::{
    is_substring, lines_of, lowercase_of, str_contains, str_lines, str_views, string_views,
};
use vstd::prelude::*;
use vstd::string::StringExecFns;

verus! {

/// What a search needs to know.
pub struct Config {
    /// The string to look for.
    pub query: String,
    /// The path of the file to search.
    pub file_path: String,
    /// Whether letter case is ignored.
    pub ignore_case: bool,
}

/// The lines whose key contains `needle`, in their order, where `keys[i]`
/// is the key of `lines[i]`.
pub open spec fn selected(lines: Seq<Seq<char>>, keys: Seq<Seq<char>>, needle: Seq<char>) -> Seq<
    Seq<char>,
>
    recommends
        lines.len() == keys.len(),
    decreases lines.len(),
{
    if lines.len() == 0 || keys.len() == 0 {
        Seq::empty()
    } else {
        let before = selected(lines.drop_last(), keys.drop_last(), needle);
        if is_substring(needle, keys.last()) {
            before.push(lines.last())
        } else {
            before
        }
    }
}

/// The lines among `lines` that contain `query`, in their order.
pub open spec fn lines_containing(lines: Seq<Seq<char>>, query: Seq<char>) -> Seq<Seq<char>> {
    selected(lines, lines, query)
}

/// The lines among `lines` whose lowercase form contains the lowercase form
/// of `query`, in their order and as they were written.
pub open spec fn lines_containing_ignoring_case(
    lines: Seq<Seq<char>>,
    query: Seq<char>,
) -> Seq<Seq<char>> {
    selected(lines, lines.map_values(|line: Seq<char>| lowercase_of(line)), lowercase_of(query))
}

/// Whether `flag` reads as a boolean: as `true` or as `false`.
pub open spec fn reads_as_bool(flag: Seq<char>) -> bool {
    flag == "true"@ || flag == "false"@
}

/// Calls `str::parse::<bool>` and reports whether it succeeded.  Taken on
/// trust: it succeeds on exactly the strings `true` and `false`.
#[verifier::external_body]
fn parses_as_bool(flag: &str) -> (r: bool)
    ensures
        r == reads_as_bool(flag@),
{
    flag.parse::<bool>().is_ok()
}

impl Config {
    /// Builds a configuration from command-line arguments.
    ///
    /// `args[0]` is the program's name and is ignored; `args[1]` is the
    /// query and `args[2]` the file path.  If there is an `args[3]`, case is
    /// ignored exactly when it reads as a boolean, whichever boolean it is;
    /// otherwise case is ignored exactly when `case_variable_set` says that
    /// the environment asks for it.
    ///
    /// A missing query or file path is reported as an error message.
    pub fn build(args: Vec<String>, case_variable_set: bool) -> (r: Result<Config, String>)
        ensures
            args@.len() <= 1 ==> r is Err && r->Err_0@ == "Didn't get a query string"@,
            args@.len() == 2 ==> r is Err && r->Err_0@ == "Didn't get a file path string"@,
            args@.len() >= 3 ==> r is Ok && r->Ok_0.query@ == args@[1]@ && r->Ok_0.file_path@
                == args@[2]@,
            args@.len() == 3 ==> r->Ok_0.ignore_case == case_variable_set,
            args@.len() > 3 ==> r->Ok_0.ignore_case == reads_as_bool(args@[3]@),
    {
        if args.len() < 2 {
            return Err(String::from_str("Didn't get a query string"));
        }
        if args.len() < 3 {
            return Err(String::from_str("Didn't get a file path string"));
        }
        let ignore_case = if args.len() > 3 {
            parses_as_bool(args[3].as_str())
        } else {
            case_variable_set
        };
        Ok(Config { query: args[1].clone(), file_path: args[2].clone(), ignore_case })
    }
}

/// Returns the lines whose key contains `needle`, in their order, where
/// `keys[i]` is the key of `lines[i]`.
pub fn select_by_key<'a>(lines: &Vec<&'a str>, keys: &Vec<&str>, needle: &str) -> (found: Vec<
    &'a str,
>)
    requires
        lines@.len() == keys@.len(),
    ensures
        str_views(found@) == selected(str_views(lines@), str_views(keys@), needle@),
{
    let mut found: Vec<&'a str> = Vec::new();
    let mut i: usize = 0;
    while i < lines.len()
        invariant
            i <= lines@.len(),
            lines@.len() == keys@.len(),
            str_views(found@) == selected(
                str_views(lines@).take(i as int),
                str_views(keys@).take(i as int),
                needle@,
            ),
        decreases lines@.len() - i,
    {
        let line = lines[i];
        let ghost seen = str_views(lines@).take(i as int);
        let ghost seen_keys = str_views(keys@).take(i as int);
        proof {
            assert(str_views(lines@).take(i + 1).drop_last() =~= seen);
            assert(str_views(keys@).take(i + 1).drop_last() =~= seen_keys);
            assert(str_views(lines@).take(i + 1).last() == line@);
            assert(str_views(keys@).take(i + 1).last() == keys@[i as int]@);
        }
        if str_contains(keys[i], needle) {
            found.push(line);
            proof {
                assert(str_views(found@) =~= selected(seen, seen_keys, needle@).push(line@));
            }
        }
        i += 1;
    }
    proof {
        assert(str_views(lines@).take(i as int) =~= str_views(lines@));
        assert(str_views(keys@).take(i as int) =~= str_views(keys@));
    }
    found
}

/// The lowercase forms of `lines`.
fn lowered(lines: &Vec<&str>) -> (keys: Vec<String>)
    ensures
        string_views(keys@) == str_views(lines@).map_values(|line: Seq<char>| lowercase_of(line)),
{
    let mut keys: Vec<String> = Vec::new();
    let mut i: usize = 0;
    while i < lines.len()
        invariant
            i <= lines@.len(),
            keys@.len() == i,
            forall|j: int| 0 <= j < i ==> (#[trigger] keys@[j])@ == lowercase_of(lines@[j]@),
        decreases lines@.len() - i,
    {
        keys.push(lines[i].to_lowercase());
        i += 1;
    }
    assert(string_views(keys@) =~= str_views(lines@).map_values(
        |line: Seq<char>| lowercase_of(line),
    ));
    keys
}

/// The strings of `strings`, borrowed.
fn borrowed<'a>(strings: &'a Vec<String>) -> (slices: Vec<&'a str>)
    ensures
        str_views(slices@) == string_views(strings@),
{
    let mut slices: Vec<&'a str> = Vec::new();
    let mut i: usize = 0;
    while i < strings.len()
        invariant
            i <= strings@.len(),
            slices@.len() == i,
            forall|j: int| 0 <= j < i ==> (#[trigger] slices@[j])@ == strings@[j]@,
        decreases strings@.len() - i,
    {
        slices.push(strings[i].as_str());
        i += 1;
    }
    assert(str_views(slices@) =~= string_views(strings@));
    slices
}

/// Returns the lines of `content` that contain `query`, in their order.
/// The comparison is case-sensitive.
pub fn search<'a>(query: &str, content: &'a str) -> (found: Vec<&'a str>)
    ensures
        str_views(found@) == lines_containing(lines_of(content@), query@),
{
    let lines = str_lines(content);
    select_by_key(&lines, &lines, query)
}

/// Returns the lines of `content` that contain `query` when letter case is
/// ignored: both the line and the query are lowercased before they are
/// compared.  The lines come back as they were written.
pub fn search_case_insensitive<'a>(query: &str, content: &'a str) -> (found: Vec<&'a str>)
    ensures
        str_views(found@) == lines_containing_ignoring_case(lines_of(content@), query@),
{
    let lines = str_lines(content);
    let lowered_lines = lowered(&lines);
    let keys = borrowed(&lowered_lines);
    let needle = query.to_lowercase();
    assert(str_views(lines@).len() == str_views(keys@).len());
    select_by_key(&lines, &keys, needle.as_str())
}

/// Returns the lines of `contents` that the configuration asks for: those
/// that contain the configured query, with or without regard to case.
pub fn run<'a>(config: &Config, contents: &'a str) -> (found: Vec<&'a str>)
    ensures
        config.ignore_case ==> str_views(found@) == lines_containing_ignoring_case(
            lines_of(contents@),
            config.query@,
        ),
        !config.ignore_case ==> str_views(found@) == lines_containing(
            lines_of(contents@),
            config.query@,
        ),
{
    if config.ignore_case {
        search_case_insensitive(config.query.as_str(), contents)
    } else {
        search(config.query.as_str(), contents)
    }
}

} // verus!
