//! Searching a text for the lines that contain a query, with or without
//! regard to case, and the configuration that picks between the two.
use vstd::prelude::*;

verus! {

/// The lines of `s`, as `str::lines` splits them.
pub uninterp spec fn lines_of(s: Seq<char>) -> Seq<Seq<char>>;

/// The lower-case form of `s`, as `str::to_lowercase` gives it.
pub uninterp spec fn lower_of(s: Seq<char>) -> Seq<char>;

/// Whether `needle` occurs in `hay` as a contiguous run.
pub open spec fn has_substring(hay: Seq<char>, needle: Seq<char>) -> bool {
    exists|i: int|
        0 <= i <= hay.len() - needle.len() && #[trigger] hay.subrange(i, i + needle.len())
            == needle
}

/// The views of a sequence of string slices.
pub open spec fn views(v: Seq<&str>) -> Seq<Seq<char>> {
    v.map_values(|l: &str| l@)
}

/// The lines that contain `query`, in order.
pub open spec fn matching(lines: Seq<Seq<char>>, query: Seq<char>) -> Seq<Seq<char>> {
    lines.filter(|l: Seq<char>| has_substring(l, query))
}

/// The lines whose lower-case form contains the lower-case form of `query`,
/// in order.
pub open spec fn matching_folded(lines: Seq<Seq<char>>, query: Seq<char>) -> Seq<Seq<char>> {
    lines.filter(|l: Seq<char>| has_substring(lower_of(l), lower_of(query)))
}

/// Relies on `str::lines`: the lines of the text, line endings removed; the
/// slices borrow from the text.
#[verifier::external_body]
fn split_lines<'a>(s: &'a str) -> (r: Vec<&'a str>)
    ensures
        views(r@) == lines_of(s@),
{
    s.lines().collect()
}

/// Relies on `str::contains` with a string pattern: whether `needle` occurs
/// in `hay`.
#[verifier::external_body]
fn contains_str(hay: &str, needle: &str) -> (r: bool)
    ensures
        r == has_substring(hay@, needle@),
{
    hay.contains(needle)
}

/// Relies on `str::to_lowercase`: the result depends on the characters alone.
#[verifier::external_body]
fn lowercase(s: &str) -> (r: String)
    ensures
        r@ == lower_of(s@),
{
    s.to_lowercase()
}

/// Whether `line` contains `query`.
pub fn line_matches(line: &str, query: &str) -> (r: bool)
    ensures
        r == has_substring(line@, query@),
{
    contains_str(line, query)
}

/// The lines among `lines` that contain `query`, in order.
pub fn select_lines<'a>(query: &str, lines: &Vec<&'a str>) -> (r: Vec<&'a str>)
    ensures
        views(r@) == matching(views(lines@), query@),
{
    let mut results: Vec<&'a str> = Vec::new();
    let n = lines.len();
    for i in 0..n
        invariant
            n == lines@.len(),
            views(results@) == matching(views(lines@.subrange(0, i as int)), query@),
    {
        let line = lines[i];
        let keep = line_matches(line, query);
        if keep {
            results.push(line);
        }
        proof {
            let pre = lines@.subrange(0, i as int);
            let cur = lines@.subrange(0, i + 1);
            assert(views(cur).drop_last() =~= views(pre));
            assert(views(cur).last() == line@);
            reveal(Seq::filter);
            assert(views(results@) =~= matching(views(cur), query@));
        }
    }
    assert(lines@.subrange(0, n as int) =~= lines@);
    results
}

/// The lines of `contents` that contain `query`, in order, with regard to
/// case.
pub fn search_sensitive<'a>(query: &str, contents: &'a str) -> (r: Vec<&'a str>)
    ensures
        views(r@) == matching(lines_of(contents@), query@),
{
    let lines = split_lines(contents);
    select_lines(query, &lines)
}

/// The lines of `contents` that contain `query` when both are taken in
/// lower case, in order.
pub fn search_insensitive<'a>(query: &str, contents: &'a str) -> (r: Vec<&'a str>)
    ensures
        views(r@) == matching_folded(lines_of(contents@), query@),
{
    let folded_query = lowercase(query);
    let lines = split_lines(contents);
    let mut results: Vec<&'a str> = Vec::new();
    let n = lines.len();
    for i in 0..n
        invariant
            n == lines@.len(),
            views(lines@) == lines_of(contents@),
            folded_query@ == lower_of(query@),
            views(results@) == matching_folded(views(lines@.subrange(0, i as int)), query@),
    {
        let line = lines[i];
        let folded = lowercase(line);
        if line_matches(folded.as_str(), folded_query.as_str()) {
            results.push(line);
        }
        proof {
            let pre = lines@.subrange(0, i as int);
            let cur = lines@.subrange(0, i + 1);
            assert(views(cur).drop_last() =~= views(pre));
            assert(views(cur).last() == line@);
            reveal(Seq::filter);
            assert(views(results@) =~= matching_folded(views(cur), query@));
        }
    }
    assert(lines@.subrange(0, n as int) =~= lines@);
    results
}

/// What a search is asked to do: the query, the file to read, and whether
/// case matters.
pub struct Config<'a> {
    query: &'a str,
    filename: &'a str,
    sensitive: bool,
}

/// The error for a command line that does not hold exactly a query and a
/// file name after the program's name.
pub open spec fn wrong_arg_count_message() -> Seq<char> {
    "Wrong number of arguments."@
}

impl<'a> Config<'a> {
    pub closed spec fn spec_query(&self) -> Seq<char> {
        self.query@
    }

    pub closed spec fn spec_filename(&self) -> Seq<char> {
        self.filename@
    }

    pub closed spec fn spec_sensitive(&self) -> bool {
        self.sensitive
    }

    /// Reads a command line: the program's name, the query and the file name.
    /// The search ignores case when `case_insensitive` is set.
    pub fn new(args: &'a Vec<String>, case_insensitive: bool) -> (r: Result<
        Config<'a>,
        &'static str,
    >)
        ensures
            r is Ok <==> args@.len() == 3,
            r is Ok ==> {
                let c = r->Ok_0;
                &&& c.spec_query() == args@[1]@
                &&& c.spec_filename() == args@[2]@
                &&& c.spec_sensitive() == !case_insensitive
            },
            r is Err ==> r->Err_0@ == wrong_arg_count_message(),
    {
        if args.len() != 3 {
            return Err("Wrong number of arguments.");
        }
        let query = args[1].as_str();
        let filename = args[2].as_str();
        Ok(Config { query, filename, sensitive: !case_insensitive })
    }

    /// The query.
    pub fn query(&self) -> (r: &'a str)
        ensures
            r@ == self.spec_query(),
    {
        self.query
    }

    /// The name of the file to search.
    pub fn filename(&self) -> (r: &'a str)
        ensures
            r@ == self.spec_filename(),
    {
        self.filename
    }

    /// Whether case matters.
    pub fn is_sensitive(&self) -> (r: bool)
        ensures
            r == self.spec_sensitive(),
    {
        self.sensitive
    }
}

/// The lines of `contents` that match the configured query, with or without
/// regard to case as configured.
pub fn search<'b>(config: &Config, contents: &'b str) -> (r: Vec<&'b str>)
    ensures
        config.spec_sensitive() ==> views(r@) == matching(lines_of(contents@), config.spec_query()),
        !config.spec_sensitive() ==> views(r@) == matching_folded(
            lines_of(contents@),
            config.spec_query(),
        ),
{
    if config.sensitive {
        search_sensitive(config.query, contents)
    } else {
        search_insensitive(config.query, contents)
    }
}

} // verus!
