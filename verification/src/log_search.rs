//! Mapping a log line to the source line that most likely emitted it.
//!
//! A log line is parsed by the launch pattern into a message and optional
//! `func`, `file` and `line` hints.  Every source file of the corpus is
//! scored with the token-LCS metric, honouring the hints, and the best match
//! over the corpus is returned.  Results are memoized per log line in a
//! bounded concurrent cache.

use vstd::prelude::*;

use vstd::string::StringExecFns;

use rayon::iter::{IntoParallelRefIterator, ParallelIterator};

use crate::pattern::{regex_group, regex_matches, LogPattern};
use crate::score::{lcs_score, token_lcs, tokens_of};
use crate::text::{
    contains_seq,
    contains_str,
    digits_val,
    is_line_number,
    lines_of,
    parse_line_number,
    split_lines,
    trim,
    trim_spec,
};

verus! {

/// A chosen source line for a log line.
#[derive(Clone, Debug)]
pub struct LogMatch {
    /// Path of the matched source file, as the corpus names it.
    pub file: String,
    /// 1-based line number within that file.
    pub line: usize,
    /// Token-LCS score of that line against the log message.
    pub score: usize,
}

/// The mathematical content of a `LogMatch`.
pub struct MatchView {
    pub file: Seq<char>,
    pub line: int,
    pub score: int,
}

impl View for LogMatch {
    type V = MatchView;

    open spec fn view(&self) -> MatchView {
        MatchView { file: self.file@, line: self.line as int, score: self.score as int }
    }
}

/// The view of an optional match.
pub open spec fn opt_match_view(r: Option<LogMatch>) -> Option<MatchView> {
    match r {
        Some(m) => Some(m@),
        None => None,
    }
}

/// What a log line asks of the corpus: the message to score against, and
/// optional hints naming the function, the file and the 1-based line.
#[derive(Clone, Debug)]
pub struct LogLineSearch {
    pub message: String,
    pub func: Option<String>,
    pub file: Option<String>,
    pub line: Option<usize>,
}

/// The mathematical content of a `LogLineSearch`.
pub struct QueryView {
    pub message: Seq<char>,
    pub func: Option<Seq<char>>,
    pub file: Option<Seq<char>>,
    pub line: Option<int>,
}

impl View for LogLineSearch {
    type V = QueryView;

    open spec fn view(&self) -> QueryView {
        QueryView {
            message: self.message@,
            func: match self.func {
                Some(f) => Some(f@),
                None => None,
            },
            file: match self.file {
                Some(f) => Some(f@),
                None => None,
            },
            line: match self.line {
                Some(l) => Some(l as int),
                None => None,
            },
        }
    }
}

/// Why a log line could not be parsed into a search.
#[derive(Clone, Copy, Debug, PartialEq, Eq)]
pub enum ParseError {
    /// The pattern did not match the line.
    UnparsableLogLine,
    /// The pattern matched but captured no `message` group.
    MissingMessageGroup,
    /// The `line` group was captured but is not a positive integer that fits
    /// in `usize`.
    BadLineNumber,
}

impl ParseError {
    /// A short description of the error.
    pub fn message(&self) -> (r: String)
        ensures
            r@ == self.message_spec(),
    {
        match self {
            ParseError::UnparsableLogLine => "Regex did not match line".to_owned(),
            ParseError::MissingMessageGroup => "Could not find message".to_owned(),
            ParseError::BadLineNumber => "Line capture is not a positive integer".to_owned(),
        }
    }

    /// The description `message` returns.
    pub open spec fn message_spec(&self) -> Seq<char> {
        match self {
            ParseError::UnparsableLogLine => "Regex did not match line"@,
            ParseError::MissingMessageGroup => "Could not find message"@,
            ParseError::BadLineNumber => "Line capture is not a positive integer"@,
        }
    }

    /// The message an error response carries: when the pattern did not match,
    /// it names the offending log line.
    pub open spec fn response_message_spec(&self, line: Seq<char>) -> Seq<char> {
        match self {
            ParseError::UnparsableLogLine => "Regex did not match line: "@ + line,
            _ => self.message_spec(),
        }
    }

    /// Build the error response's message for the given log line.
    pub fn response_message(&self, line: &str) -> (r: String)
        ensures
            r@ == self.response_message_spec(line@),
    {
        match self {
            ParseError::UnparsableLogLine => {
                let mut out = "Regex did not match line: ".to_owned();
                out.append(line);
                out
            },
            _ => self.message(),
        }
    }
}

/// What parsing a log line with a pattern yields: the captured groups,
/// trimmed, with the `line` group read as a positive integer.
pub open spec fn parse_spec(pat: Seq<char>, line: Seq<char>) -> Result<QueryView, ParseError> {
    if !regex_matches(pat, line) {
        Err(ParseError::UnparsableLogLine)
    } else {
        match regex_group(pat, line, "message"@) {
            None => Err(ParseError::MissingMessageGroup),
            Some(msg) => {
                let lg = regex_group(pat, line, "line"@);
                if lg matches Some(ls) && !is_line_number(ls) {
                    Err(ParseError::BadLineNumber)
                } else {
                    Ok(
                        QueryView {
                            message: trim_spec(msg),
                            func: match regex_group(pat, line, "func"@) {
                                Some(f) => Some(trim_spec(f)),
                                None => None,
                            },
                            file: match regex_group(pat, line, "file"@) {
                                Some(f) => Some(trim_spec(f)),
                                None => None,
                            },
                            line: match lg {
                                Some(ls) => Some(digits_val(ls) as int),
                                None => None,
                            },
                        },
                    )
                }
            },
        }
    }
}

impl LogLineSearch {
    /// Parse a log line with the launch pattern.  Fails with
    /// `UnparsableLogLine` when the pattern does not match, with
    /// `MissingMessageGroup` when no `message` group is captured, and with
    /// `BadLineNumber` when a captured `line` group is not a positive
    /// integer fitting `usize`; otherwise yields the trimmed captures.
    pub fn new(pattern: &LogPattern, log_line: &str) -> (r: Result<LogLineSearch, ParseError>)
        requires
            pattern.wf(),
        ensures
            match r {
                Ok(s) => parse_spec(pattern.pattern(), log_line@) matches Ok(q) && s@ == q,
                Err(e) => parse_spec(pattern.pattern(), log_line@) matches Err(e2) && e2 == e,
            },
    {
        match pattern.apply(log_line) {
            None => Err(ParseError::UnparsableLogLine),
            Some((msg_opt, func_opt, file_opt, line_opt)) => {
                let msg = match msg_opt {
                    Some(m) => m,
                    None => {
                        return Err(ParseError::MissingMessageGroup);
                    },
                };
                let line = match &line_opt {
                    Some(ls) => match parse_line_number(ls.as_str()) {
                        Some(v) => Some(v),
                        None => {
                            return Err(ParseError::BadLineNumber);
                        },
                    },
                    None => None,
                };
                Ok(
                    LogLineSearch {
                        message: trim(msg.as_str()),
                        func: match &func_opt {
                            Some(f) => Some(trim(f.as_str())),
                            None => None,
                        },
                        file: match &file_opt {
                            Some(f) => Some(trim(f.as_str())),
                            None => None,
                        },
                        line,
                    },
                )
            },
        }
    }
}

/// The token-LCS score of one source line against the log message.
pub open spec fn line_score(l: Seq<char>, msg: Seq<char>) -> nat {
    lcs_score(tokens_of(l), tokens_of(msg))
}

/// The 0-based index of the best of the first `k` lines: the highest score,
/// ties to the lowest line.
pub open spec fn best_line_upto(ls: Seq<Seq<char>>, msg: Seq<char>, k: int) -> int
    decreases k,
{
    if k <= 1 {
        0
    } else {
        let b = best_line_upto(ls, msg, k - 1);
        if line_score(ls[k - 1], msg) > line_score(ls[b], msg) {
            k - 1
        } else {
            b
        }
    }
}

/// The best match within one file.  `None` when a `func` hint is absent from
/// the file, or when a `line` hint names a line the file does not have, or
/// when the file is empty; otherwise the hinted line, or the highest-scoring
/// line with ties to the lowest line number.
pub open spec fn best_in_file_spec(contents: Seq<char>, path: Seq<char>, q: QueryView) -> Option<
    MatchView,
> {
    if q.func matches Some(f) && !contains_seq(contents, f) {
        None
    } else {
        let ls = lines_of(contents);
        match q.line {
            Some(l) => if 1 <= l <= ls.len() {
                Some(MatchView { file: path, line: l, score: line_score(ls[l - 1], q.message) as int })
            } else {
                None
            },
            None => if ls.len() == 0 {
                None
            } else {
                let b = best_line_upto(ls, q.message, ls.len() as int);
                Some(MatchView { file: path, line: b + 1, score: line_score(ls[b], q.message) as int })
            },
        }
    }
}

/// The index chosen by `best_line_upto` is within range.
proof fn lemma_best_line_upto_range(ls: Seq<Seq<char>>, msg: Seq<char>, k: int)
    requires
        1 <= k,
    ensures
        0 <= best_line_upto(ls, msg, k) < k,
    decreases k,
{
    if k > 1 {
        lemma_best_line_upto_range(ls, msg, k - 1);
    }
}

/// The chosen line scores at least as high as every line before the `k`th,
/// and strictly higher than every earlier line: ties break to the lowest
/// line number.
pub proof fn lemma_best_line_upto_props(ls: Seq<Seq<char>>, msg: Seq<char>, k: int)
    requires
        1 <= k <= ls.len(),
    ensures
        ({
            let b = best_line_upto(ls, msg, k);
            &&& 0 <= b < k
            &&& (forall|j: int| 0 <= j < k ==> line_score(#[trigger] ls[j], msg) <= line_score(ls[b], msg))
            &&& (forall|j: int| 0 <= j < b ==> line_score(#[trigger] ls[j], msg) < line_score(ls[b], msg))
        }),
    decreases k,
{
    lemma_best_line_upto_range(ls, msg, k);
    if k > 1 {
        lemma_best_line_upto_props(ls, msg, k - 1);
    }
}

/// What one corpus entry contributes to the search.
pub open spec fn entry_best(corpus: Seq<(Seq<char>, Seq<char>)>, q: QueryView, j: int) -> Option<
    MatchView,
> {
    if eligible(corpus[j], q) {
        best_in_file_spec(corpus[j].1, corpus[j].0, q)
    } else {
        None
    }
}

/// The corpus-wide best from index `i` on is the contribution of the
/// earliest eligible entry with the highest score: nothing scores higher,
/// and every earlier contribution scores strictly lower.
proof fn lemma_best_in_corpus_from_props(corpus: Seq<(Seq<char>, Seq<char>)>, q: QueryView, i: int)
    requires
        0 <= i <= corpus.len(),
    ensures
        match best_in_corpus_from(corpus, q, i) {
            None => forall|j: int| i <= j < corpus.len() ==> entry_best(corpus, q, j) is None,
            Some(m) => {
                &&& (exists|e: int|
                    i <= e < corpus.len() && #[trigger] entry_best(corpus, q, e) == Some(m) && (
                    forall|j: int|
                        i <= j < e ==> (#[trigger] entry_best(corpus, q, j) matches Some(mj)
                            ==> mj.score < m.score)))
                &&& (forall|j: int|
                    i <= j < corpus.len() ==> (#[trigger] entry_best(corpus, q, j) matches Some(mj)
                        ==> mj.score <= m.score))
            },
        },
    decreases corpus.len() - i,
{
    if i < corpus.len() {
        lemma_best_in_corpus_from_props(corpus, q, i + 1);
        let cur = entry_best(corpus, q, i);
        let rest = best_in_corpus_from(corpus, q, i + 1);
        match (cur, rest) {
            (None, None) => {},
            (None, Some(r)) => {
                let e = choose|e: int|
                    i + 1 <= e < corpus.len() && #[trigger] entry_best(corpus, q, e) == Some(r) && (
                    forall|j: int|
                        i + 1 <= j < e ==> (#[trigger] entry_best(corpus, q, j) matches Some(mj)
                            ==> mj.score < r.score));
                assert(entry_best(corpus, q, e) == Some(r));
            },
            (Some(c), None) => {
                assert(entry_best(corpus, q, i) == Some(c));
            },
            (Some(c), Some(r)) => {
                if r.score > c.score {
                    let e = choose|e: int|
                        i + 1 <= e < corpus.len() && #[trigger] entry_best(corpus, q, e) == Some(r)
                            && (forall|j: int|
                            i + 1 <= j < e ==> (#[trigger] entry_best(corpus, q, j) matches Some(
                                mj,
                            ) ==> mj.score < r.score));
                    assert(entry_best(corpus, q, e) == Some(r));
                } else {
                    assert(entry_best(corpus, q, i) == Some(c));
                }
            },
        }
    }
}

/// The search result is exact: when a match comes back it is what the
/// earliest highest-scoring eligible corpus entry yields, and when none
/// does, no eligible entry yields one.
pub proof fn lemma_best_in_corpus_props(corpus: Seq<(Seq<char>, Seq<char>)>, q: QueryView)
    ensures
        match best_in_corpus(corpus, q) {
            None => forall|j: int| 0 <= j < corpus.len() ==> entry_best(corpus, q, j) is None,
            Some(m) => {
                &&& (exists|e: int|
                    0 <= e < corpus.len() && #[trigger] entry_best(corpus, q, e) == Some(m) && (
                    forall|j: int|
                        0 <= j < e ==> (#[trigger] entry_best(corpus, q, j) matches Some(mj)
                            ==> mj.score < m.score)))
                &&& (forall|j: int|
                    0 <= j < corpus.len() ==> (#[trigger] entry_best(corpus, q, j) matches Some(mj)
                        ==> mj.score <= m.score))
            },
        },
{
    lemma_best_in_corpus_from_props(corpus, q, 0);
}

/// Find the best match for a search within one source file.
pub fn best_match_in_file(contents: &str, filename: &str, search_options: &LogLineSearch) -> (r:
    Option<LogMatch>)
    ensures
        opt_match_view(r) == best_in_file_spec(contents@, filename@, search_options@),
{
    if let Some(func) = &search_options.func {
        if !contains_str(contents, func.as_str()) {
            return None;
        }
    }
    let lines = split_lines(contents);
    let ghost lsv = lines_of(contents@);
    proof {
        lemma_string_views(&lines);
    }
    let n = lines.len();
    match search_options.line {
        Some(l) => {
            if 1 <= l && l <= n {
                let score = token_lcs(lines[l - 1].as_str(), search_options.message.as_str());
                Some(LogMatch { file: filename.to_owned(), line: l, score })
            } else {
                None
            }
        },
        None => {
            if n == 0 {
                return None;
            }
            let mut best_i: usize = 0;
            let mut best_s: usize = token_lcs(lines[0].as_str(), search_options.message.as_str());
            let mut k: usize = 1;
            while k < n
                invariant
                    1 <= k <= n,
                    n == lsv.len(),
                    lines.deep_view() == lsv,
                    forall|j: int| 0 <= j < n ==> lsv[j] == #[trigger] lines@[j]@,
                    best_i < k,
                    best_i == best_line_upto(lsv, search_options.message@, k as int),
                    best_s == line_score(lsv[best_i as int], search_options.message@),
                decreases n - k,
            {
                let s = token_lcs(lines[k].as_str(), search_options.message.as_str());
                if s > best_s {
                    best_i = k;
                    best_s = s;
                }
                k = k + 1;
            }
            Some(LogMatch { file: filename.to_owned(), line: best_i + 1, score: best_s })
        },
    }
}

/// The deep view of a vector of strings indexes to the views of its
/// elements.
proof fn lemma_string_views(v: &Vec<String>)
    ensures
        v.deep_view().len() == v@.len(),
        forall|i: int| 0 <= i < v@.len() ==> #[trigger] v.deep_view()[i] == v@[i]@,
{
}

/// The deep view of the corpus indexes to the views of its entries.
proof fn lemma_corpus_views(v: &Vec<(String, String)>)
    ensures
        v.deep_view().len() == v@.len(),
        forall|i: int|
            0 <= i < v@.len() ==> #[trigger] v.deep_view()[i] == (v@[i].0@, v@[i].1@),
{
}

/// Whether a corpus entry is considered for a search: when the search names
/// a file, only the entry with exactly that path.
pub open spec fn eligible(entry: (Seq<char>, Seq<char>), q: QueryView) -> bool {
    match q.file {
        Some(f) => entry.0 == f,
        None => true,
    }
}

/// The best match over the corpus entries from index `i` on: the highest
/// score among eligible entries' best matches, ties to the earliest entry.
pub open spec fn best_in_corpus_from(
    corpus: Seq<(Seq<char>, Seq<char>)>,
    q: QueryView,
    i: int,
) -> Option<MatchView>
    decreases corpus.len() - i,
{
    if i < 0 || i >= corpus.len() {
        None
    } else {
        let rest = best_in_corpus_from(corpus, q, i + 1);
        let cur = if eligible(corpus[i], q) {
            best_in_file_spec(corpus[i].1, corpus[i].0, q)
        } else {
            None
        };
        match (cur, rest) {
            (None, r) => r,
            (c, None) => c,
            (Some(c), Some(r)) => if r.score > c.score {
                Some(r)
            } else {
                Some(c)
            },
        }
    }
}

/// The best match over the whole corpus.
pub open spec fn best_in_corpus(corpus: Seq<(Seq<char>, Seq<char>)>, q: QueryView) -> Option<
    MatchView,
> {
    best_in_corpus_from(corpus, q, 0)
}

/// What searching the corpus for a log line yields: nothing when the line
/// does not parse, otherwise the best corpus match for the parsed search.
pub open spec fn search_spec(
    corpus: Seq<(Seq<char>, Seq<char>)>,
    pat: Seq<char>,
    line: Seq<char>,
) -> Option<MatchView> {
    match parse_spec(pat, line) {
        Err(_) => None,
        Ok(q) => best_in_corpus(corpus, q),
    }
}

/// Relies on rayon's `par_iter().map(..).collect()`: collecting an indexed
/// parallel iterator into a `Vec` preserves order and length, and each
/// element is what the mapped closure returns for the corresponding input.
/// The closure only calls the verified `best_match_in_file`.
#[verifier::external_body]
fn par_best_matches(files: &Vec<(String, String)>, search: &LogLineSearch) -> (r: Vec<
    Option<LogMatch>,
>)
    ensures
        r@.len() == files.deep_view().len(),
        forall|i: int|
            0 <= i < r@.len() ==> opt_match_view(#[trigger] r@[i]) == best_in_file_spec(
                files.deep_view()[i].1,
                files.deep_view()[i].0,
                search@,
            ),
{
    files.par_iter().map(|fc| best_match_in_file(&fc.1, &fc.0, search)).collect()
}

/// Search every corpus file for the best match of one log line.  Returns
/// `None` exactly when the line does not parse or no eligible file yields a
/// match; ties break to the earliest corpus entry.
pub fn search_files(files: &Vec<(String, String)>, pattern: &LogPattern, log_line: &str) -> (r:
    Option<LogMatch>)
    requires
        pattern.wf(),
    ensures
        opt_match_view(r) == search_spec(files.deep_view(), pattern.pattern(), log_line@),
{
    let search = match LogLineSearch::new(pattern, log_line) {
        Ok(s) => s,
        Err(_) => {
            return None;
        },
    };
    let ghost corpus = files.deep_view();
    proof {
        lemma_corpus_views(files);
    }
    let mut per_file = par_best_matches(files, &search);
    let n = files.len();
    let mut best: Option<LogMatch> = None;
    let mut i: usize = n;
    while i > 0
        invariant
            i <= n,
            n == corpus.len(),
            n == files@.len(),
            corpus == files.deep_view(),
            forall|j: int| 0 <= j < n ==> corpus[j] == (#[trigger] files@[j].0@, files@[j].1@),
            per_file@.len() == i,
            forall|j: int|
                0 <= j < i ==> opt_match_view(#[trigger] per_file@[j]) == best_in_file_spec(
                    corpus[j].1,
                    corpus[j].0,
                    search@,
                ),
            opt_match_view(best) == best_in_corpus_from(corpus, search@, i as int),
        decreases i,
    {
        let cand = per_file.pop().unwrap();
        i = i - 1;
        let elig = match &search.file {
            Some(f) => files[i].0.eq(f),
            None => true,
        };
        if elig {
            match (&cand, &best) {
                (None, _) => {},
                (Some(_), None) => {
                    best = cand;
                },
                (Some(c), Some(b)) => {
                    if !(b.score > c.score) {
                        best = cand;
                    }
                },
            }
        }
    }
    best
}

#[verifier::external_type_specification]
#[verifier::external_body]
#[verifier::reject_recursive_types(K)]
#[verifier::reject_recursive_types(V)]
#[verifier::reject_recursive_types(S)]
pub struct ExMokaCache<K, V, S>(moka::sync::Cache<K, V, S>);

/// How many log lines the memo keeps results for.
pub const SEARCH_CACHE_CAPACITY: u64 = 10000;

/// Relies on `moka::sync::Cache::new`: it creates an empty cache that holds
/// at most the given number of entries.
#[verifier::external_body]
fn cache_new(capacity: u64) -> (r: moka::sync::Cache<String, Option<LogMatch>>) {
    moka::sync::Cache::new(capacity)
}

/// The launch settings together with the source corpus and the per-line
/// memo.  The pattern, the corpus and the cache are private and set only at
/// construction, so every cached value is a result `search_files` computed
/// from this searcher's own pattern and corpus.
pub struct Searcher {
    pat: LogPattern,
    files: Vec<(String, String)>,
    cache: moka::sync::Cache<String, Option<LogMatch>>,
}

impl Searcher {
    /// The pattern text searches are parsed with.
    pub closed spec fn pattern(self) -> Seq<char> {
        self.pat.pattern()
    }

    /// The corpus searched: `(path, contents)` pairs in corpus order.
    pub closed spec fn corpus(self) -> Seq<(Seq<char>, Seq<char>)> {
        self.files.deep_view()
    }

    /// The held pattern is well formed.
    pub closed spec fn wf(self) -> bool {
        self.pat.wf()
    }

    /// Build a searcher over a corpus with an empty memo.
    pub fn new(pat: LogPattern, files: Vec<(String, String)>) -> (r: Searcher)
        requires
            pat.wf(),
        ensures
            r.wf(),
            r.pattern() == pat.pattern(),
            r.corpus() == files.deep_view(),
    {
        let cache = cache_new(SEARCH_CACHE_CAPACITY);
        Searcher { pat, files, cache }
    }

    /// Parse a log line with the held pattern.
    pub fn parse_line(&self, log_line: &str) -> (r: Result<LogLineSearch, ParseError>)
        requires
            self.wf(),
        ensures
            match r {
                Ok(s) => parse_spec(self.pattern(), log_line@) matches Ok(q) && s@ == q,
                Err(e) => parse_spec(self.pattern(), log_line@) matches Err(e2) && e2 == e,
            },
    {
        LogLineSearch::new(&self.pat, log_line)
    }

    /// Search the corpus for the best match of one log line, memoized.
    ///
    /// Relies on `moka::sync::Cache::get_with`: it returns the value already
    /// cached for the key, or else inserts and returns what the supplied
    /// closure computes, computing at most once per key at a time.  The
    /// cache is created empty and written only here, with a closure that
    /// only calls the verified `search_files` on this searcher's own pattern
    /// and corpus, so whatever `get_with` hands back is a result that call
    /// returns for this line.
    #[verifier::external_body]
    pub fn search(&self, log_line: &str) -> (r: Option<LogMatch>)
        requires
            self.wf(),
        ensures
            opt_match_view(r) == search_spec(self.corpus(), self.pattern(), log_line@),
    {
        self.cache.get_with(
            log_line.to_string(),
            || search_files(&self.files, &self.pat, log_line),
        )
    }
}

/// The immutable settings of a session: where the log lives, its full text,
/// the compiled pattern, and the glob lists that chose the corpus.
pub struct LogSearchSettings {
    pub log_file_name: String,
    pub log_file: String,
    pub log_pattern: LogPattern,
    pub sources: Vec<String>,
    pub exclude: Vec<String>,
}

/// The memoized search is sound: two searches of the same line against the
/// same pattern and corpus yield equal results, so a cached result equals
/// what a fresh search of that line would return.
pub proof fn lemma_search_stable(
    corpus: Seq<(Seq<char>, Seq<char>)>,
    pat: Seq<char>,
    line: Seq<char>,
    r1: Option<MatchView>,
    r2: Option<MatchView>,
)
    requires
        r1 == search_spec(corpus, pat, line),
        r2 == search_spec(corpus, pat, line),
    ensures
        r1 == r2,
{
}

} // verus!
