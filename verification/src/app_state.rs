//! The replay state machine: a cursor over the log that steps or runs in
//! either direction, honours breakpoints on the log file or on source files,
//! and produces the adapter's responses and events.

use vstd::prelude::*;

use crate::launch::{load_settings, load_settings_spec};
use crate::log_search::{
    opt_match_view,
    parse_spec,
    search_spec,
    LogLineSearch,
    LogMatch,
    LogSearchSettings,
    MatchView,
    ParseError,
    QueryView,
    Searcher,
};
use crate::protocol::{
    is_stop_event,
    Action,
    Command,
    Response,
    ScopeInfo,
    StackFrameInfo,
    StopReason,
    StoppedEvent,
};
use crate::text::{basename, basename_spec, lines_of, split_lines};

verus! {

/// A breakpoint as the machine stores it: a path (either a source file of
/// the corpus or the log file itself) and a 1-based line in it.
pub struct RetreadBreakpoint {
    pub path: String,
    pub line: i64,
}

impl RetreadBreakpoint {
    /// Adopt one breakpoint of a set-breakpoints request.  `None` when the
    /// request named no path.
    pub fn new(path: &Option<String>, line: i64) -> (r: Option<RetreadBreakpoint>)
        ensures
            match path {
                Some(p) => r matches Some(b) && b.path@ == p@ && b.line == line,
                None => r is None,
            },
    {
        match path {
            Some(p) => Some(RetreadBreakpoint { path: p.clone(), line }),
            None => None,
        }
    }
}

impl Clone for RetreadBreakpoint {
    fn clone(&self) -> (r: Self)
        ensures
            r == *self,
    {
        RetreadBreakpoint { path: self.path.clone(), line: self.line }
    }
}

/// Whether one breakpoint stops the cursor: it names the matched source line,
/// or the current log line in the log file itself.
pub open spec fn bp_matches(
    b: RetreadBreakpoint,
    m: MatchView,
    idx: int,
    log_name: Seq<char>,
) -> bool {
    ||| (b.line as int == m.line && b.path@ == m.file)
    ||| (b.line as int == idx + 1 && b.path@ == log_name)
}

/// The replay cursor and everything it decides with.
pub struct RunningState {
    /// Display path of the log file; breakpoints on it are by log line.
    pub log_file_name: String,
    /// The lines of the log file.
    pub log_lines: Vec<String>,
    /// The corpus searcher with its memo.
    pub searcher: Searcher,
    /// 0-based cursor into the log lines.
    pub log_index: usize,
    pub breakpoints: Vec<RetreadBreakpoint>,
    /// When true the machine advances on every tick.
    pub running: bool,
    /// Direction of travel: backward when true.
    pub reverse: bool,
}

impl RunningState {
    /// The number of log lines.
    pub open spec fn line_count(self) -> nat {
        self.log_lines@.len()
    }

    /// The characters of the log line at `i`.
    pub open spec fn line_at(self, i: int) -> Seq<char> {
        self.log_lines@[i]@
    }

    /// The cursor stays inside the log and the pattern is compiled.
    pub open spec fn wf(self) -> bool {
        &&& self.searcher.wf()
        &&& self.log_index < self.line_count()
    }

    /// What parsing the log line at `i` yields.
    pub open spec fn parse_at(self, i: int) -> Result<QueryView, ParseError> {
        parse_spec(self.searcher.pattern(), self.line_at(i))
    }

    /// The description a stop at `i` carries: the parsed message, if any.
    pub open spec fn desc_at(self, i: int) -> Option<Seq<char>> {
        match self.parse_at(i) {
            Ok(q) => Some(q.message),
            Err(_) => None,
        }
    }

    /// The best corpus match for the log line at `i`.
    pub open spec fn match_at(self, i: int) -> Option<MatchView> {
        search_spec(self.searcher.corpus(), self.searcher.pattern(), self.line_at(i))
    }

    /// Whether the log line at `i` has a match with a positive score.
    pub open spec fn scored_at(self, i: int) -> bool {
        self.match_at(i) matches Some(m) && m.score > 0
    }

    /// Whether some breakpoint stops the cursor at `i` with match `m`.
    pub open spec fn bp_hit(self, m: MatchView, i: int) -> bool {
        exists|k: int|
            0 <= k < self.breakpoints@.len() && bp_matches(
                #[trigger] self.breakpoints@[k],
                m,
                i,
                self.log_file_name@,
            )
    }

    /// The cursor stands where the advance rule can no longer move it.
    pub open spec fn at_boundary(self) -> bool {
        if self.reverse {
            self.log_index == 0
        } else {
            self.log_index + 1 >= self.line_count()
        }
    }

    /// The index a scan that runs off the log ends at.
    pub open spec fn end_index(self) -> int {
        if self.reverse {
            0
        } else {
            self.line_count() - 1
        }
    }

    /// What a method must leave untouched: everything but the cursor, the
    /// run flag, the direction and the breakpoints.
    pub open spec fn same_session(self, other: RunningState) -> bool {
        &&& self.log_file_name == other.log_file_name
        &&& self.log_lines == other.log_lines
        &&& self.searcher == other.searcher
    }

    /// Enter the replay for a validated launch: split the log into lines and
    /// wrap the corpus.  `None` exactly when the log file has no lines.
    pub fn new(settings: LogSearchSettings, files: Vec<(String, String)>) -> (r: Option<
        RunningState,
    >)
        requires
            settings.log_pattern.wf(),
        ensures
            r is Some <==> lines_of(settings.log_file@).len() > 0,
            r matches Some(s) ==> {
                &&& s.wf()
                &&& s.log_index == 0
                &&& !s.running
                &&& !s.reverse
                &&& s.breakpoints@.len() == 0
                &&& s.log_file_name@ == settings.log_file_name@
                &&& s.log_lines.deep_view() == lines_of(settings.log_file@)
                &&& s.searcher.pattern() == settings.log_pattern.pattern()
                &&& s.searcher.corpus() == files.deep_view()
            },
    {
        let LogSearchSettings { log_file_name, log_file, log_pattern, sources: _, exclude: _ } =
            settings;
        let log_lines = split_lines(log_file.as_str());
        if log_lines.len() == 0 {
            proof {
                assert(lines_of(log_file@).len() == log_lines.deep_view().len());
            }
            return None;
        }
        let searcher = Searcher::new(log_pattern, files);
        proof {
            assert(lines_of(log_file@).len() == log_lines.deep_view().len());
        }
        Some(
            RunningState {
                log_file_name,
                log_lines,
                searcher,
                log_index: 0,
                breakpoints: Vec::new(),
                running: false,
                reverse: false,
            },
        )
    }

    /// Parse the current log line.
    pub fn get_log_line_search(&self) -> (r: Result<LogLineSearch, ParseError>)
        requires
            self.wf(),
        ensures
            match r {
                Ok(s) => self.parse_at(self.log_index as int) matches Ok(q) && s@ == q,
                Err(e) => self.parse_at(self.log_index as int) matches Err(e2) && e2 == e,
            },
    {
        proof {
            assert(self.log_lines@[self.log_index as int]@ == self.log_lines.deep_view()[
                self.log_index as int]);
        }
        self.searcher.parse_line(self.log_lines[self.log_index].as_str())
    }

    /// Stop the cursor: clear the run flag and build the stopped event, its
    /// description the current line's message when that line parses.
    pub fn stop(&mut self, reason: StopReason) -> (ev: StoppedEvent)
        requires
            old(self).wf(),
        ensures
            final(self).wf(),
            old(self).same_session(*final(self)),
            final(self).breakpoints == old(self).breakpoints,
            final(self).reverse == old(self).reverse,
            final(self).log_index == old(self).log_index,
            !final(self).running,
            is_stop_event(ev, reason, old(self).desc_at(old(self).log_index as int)),
    {
        let description = match self.get_log_line_search() {
            Ok(s) => Some(s.message),
            Err(_) => None,
        };
        self.running = false;
        StoppedEvent {
            reason,
            description,
            thread_id: 0,
            preserve_focus_hint: false,
            all_threads_stopped: false,
        }
    }

    /// Emit the entry stop that opens a session.
    pub fn init(&mut self) -> (ev: StoppedEvent)
        requires
            old(self).wf(),
        ensures
            final(self).wf(),
            old(self).same_session(*final(self)),
            final(self).breakpoints == old(self).breakpoints,
            final(self).reverse == old(self).reverse,
            final(self).log_index == old(self).log_index,
            !final(self).running,
            is_stop_event(ev, StopReason::Entry, old(self).desc_at(old(self).log_index as int)),
    {
        self.stop(StopReason::Entry)
    }

    /// The advance rule: move one line in the direction of travel; at either
    /// end of the log, stop with an entry event when running, else stay.
    pub fn increment_log_index(&mut self) -> (ev: Option<StoppedEvent>)
        requires
            old(self).wf(),
        ensures
            final(self).wf(),
            old(self).same_session(*final(self)),
            final(self).breakpoints == old(self).breakpoints,
            final(self).reverse == old(self).reverse,
            !old(self).at_boundary() ==> {
                &&& final(self).log_index == if old(self).reverse {
                    old(self).log_index - 1
                } else {
                    old(self).log_index + 1
                }
                &&& final(self).running == old(self).running
                &&& ev is None
            },
            old(self).at_boundary() ==> final(self).log_index == old(self).log_index,
            old(self).at_boundary() && old(self).running ==> {
                &&& !final(self).running
                &&& ev matches Some(e) && is_stop_event(
                    e,
                    StopReason::Entry,
                    old(self).desc_at(old(self).log_index as int),
                )
            },
            old(self).at_boundary() && !old(self).running ==> *final(self) == *old(self) && ev
                is None,
    {
        if self.reverse && self.log_index > 0 {
            self.log_index = self.log_index - 1;
            None
        } else if !self.reverse && self.log_index < self.log_lines.len() - 1 {
            self.log_index = self.log_index + 1;
            None
        } else if self.running {
            Some(self.stop(StopReason::Entry))
        } else {
            None
        }
    }
}

/// Whether a breakpoint survives clearing for a path: those of other paths
/// do; when no path is named, all do.
pub open spec fn bp_keep(b: RetreadBreakpoint, path: Option<Seq<char>>) -> bool {
    match path {
        Some(p) => b.path@ != p,
        None => true,
    }
}

/// The breakpoints left after clearing those of a path.
pub open spec fn drop_path(
    bps: Seq<RetreadBreakpoint>,
    path: Option<Seq<char>>,
) -> Seq<RetreadBreakpoint>
    decreases bps.len(),
{
    if bps.len() == 0 {
        seq![]
    } else {
        let rest = drop_path(bps.drop_first(), path);
        if bp_keep(bps[0], path) {
            seq![bps[0]] + rest
        } else {
            rest
        }
    }
}

/// The view of an optional path.
pub open spec fn opt_path_view(path: Option<String>) -> Option<Seq<char>> {
    match path {
        Some(p) => Some(p@),
        None => None,
    }
}

impl RunningState {
    /// Remove every breakpoint whose path equals the named source path.
    pub fn clear_breakpoints_for_source(&mut self, path: &Option<String>)
        requires
            old(self).wf(),
        ensures
            final(self).wf(),
            old(self).same_session(*final(self)),
            final(self).log_index == old(self).log_index,
            final(self).running == old(self).running,
            final(self).reverse == old(self).reverse,
            final(self).breakpoints@ == drop_path(old(self).breakpoints@, opt_path_view(*path)),
    {
        let ghost pathv = opt_path_view(*path);
        let ghost bps = self.breakpoints@;
        let n = self.breakpoints.len();
        let mut kept: Vec<RetreadBreakpoint> = Vec::new();
        let mut i: usize = 0;
        assert(bps.skip(0) =~= bps);
        while i < n
            invariant
                i <= n,
                n == bps.len(),
                self.breakpoints@ == bps,
                pathv == opt_path_view(*path),
                drop_path(bps, pathv) == kept@ + drop_path(bps.skip(i as int), pathv),
            decreases n - i,
        {
            assert(bps.skip(i as int)[0] == bps[i as int]);
            assert(bps.skip(i as int).drop_first() =~= bps.skip(i + 1));
            let ghost rest = drop_path(bps.skip(i + 1), pathv);
            proof {
                assert(drop_path(bps.skip(i as int), pathv) == if bp_keep(bps[i as int], pathv) {
                    seq![bps[i as int]] + rest
                } else {
                    rest
                });
            }
            let b = &self.breakpoints[i];
            assert(*b == bps[i as int]);
            let keep: bool;
            match path.as_ref() {
                Some(p) => {
                    assert(pathv == Some(p@));
                    keep = !crate::text::str_eq(b.path.as_str(), p.as_str());
                },
                None => {
                    keep = true;
                },
            }
            assert(keep == bp_keep(bps[i as int], pathv));
            if keep {
                let ghost kept0 = kept@;
                kept.push(b.clone());
                proof {
                    assert(kept@ + drop_path(bps.skip(i + 1), pathv) =~= kept0 + (seq![
                        bps[i as int],
                    ] + drop_path(bps.skip(i + 1), pathv)));
                }
            }
            i = i + 1;
        }
        assert(bps.skip(n as int) =~= Seq::<RetreadBreakpoint>::empty());
        assert(kept@ + drop_path(bps.skip(n as int), pathv) =~= kept@);
        self.breakpoints = kept;
    }

    /// The first scored line at or after `i`, travelling forward.
    pub open spec fn next_scored_fwd(self, i: int) -> Option<int>
        decreases self.line_count() - i,
    {
        if i < 0 || i >= self.line_count() {
            None
        } else if self.scored_at(i) {
            Some(i)
        } else {
            self.next_scored_fwd(i + 1)
        }
    }

    /// The first scored line at or before `i`, travelling backward.
    pub open spec fn next_scored_rev(self, i: int) -> Option<int>
        decreases i + 1,
    {
        if i < 0 || i >= self.line_count() {
            None
        } else if self.scored_at(i) {
            Some(i)
        } else {
            self.next_scored_rev(i - 1)
        }
    }

    /// The first scored line at or beyond `i` in the direction of travel.
    pub open spec fn next_scored(self, i: int) -> Option<int> {
        if self.reverse {
            self.next_scored_rev(i)
        } else {
            self.next_scored_fwd(i)
        }
    }

    /// Replace every breakpoint of the named source path with the given
    /// lines.  With no path named, nothing changes; with no lines given, the
    /// path's breakpoints are only cleared.
    pub fn set_breakpoints(&mut self, path: &Option<String>, lines: &Option<Vec<i64>>)
        requires
            old(self).wf(),
        ensures
            final(self).wf(),
            old(self).same_session(*final(self)),
            final(self).log_index == old(self).log_index,
            final(self).running == old(self).running,
            final(self).reverse == old(self).reverse,
            ({
                let dropped = drop_path(old(self).breakpoints@, opt_path_view(*path));
                let added: Seq<i64> = if *path is Some && *lines is Some {
                    (*lines)->0@
                } else {
                    seq![]
                };
                &&& final(self).breakpoints@.len() == dropped.len() + added.len()
                &&& (forall|j: int|
                    0 <= j < dropped.len() ==> final(self).breakpoints@[j] == dropped[j])
                &&& (forall|j: int|
                    0 <= j < added.len() ==> (#[trigger] final(self).breakpoints@[dropped.len()
                        + j]).path@ == (*path)->0@ && final(self).breakpoints@[dropped.len()
                        + j].line == added[j])
            }),
    {
        self.clear_breakpoints_for_source(path);
        let ghost dropped = self.breakpoints@;
        if let Some(ls) = lines.as_ref() {
            let n = ls.len();
            let mut k: usize = 0;
            while k < n
                invariant
                    k <= n,
                    n == ls@.len(),
                    self.wf(),
                    old(self).same_session(*self),
                    self.log_index == old(self).log_index,
                    self.running == old(self).running,
                    self.reverse == old(self).reverse,
                    self.breakpoints@.len() == dropped.len() + (if *path is Some {
                        k as int
                    } else {
                        0
                    }),
                    forall|j: int| 0 <= j < dropped.len() ==> self.breakpoints@[j] == dropped[j],
                    *path is Some ==> forall|j: int|
                        0 <= j < k ==> (#[trigger] self.breakpoints@[dropped.len() + j]).path@ == (
                        *path)->0@ && self.breakpoints@[dropped.len() + j].line == ls@[j],
                decreases n - k,
            {
                if let Some(b) = RetreadBreakpoint::new(path, ls[k]) {
                    self.breakpoints.push(b);
                }
                k = k + 1;
            }
        }
    }

    /// Whether any breakpoint stops the cursor here, given the match for the
    /// current line.
    fn breakpoint_hit(&self, m: &LogMatch) -> (r: bool)
        ensures
            r == self.bp_hit(m@, self.log_index as int),
    {
        let n = self.breakpoints.len();
        let mut k: usize = 0;
        while k < n
            invariant
                k <= n,
                n == self.breakpoints@.len(),
                forall|j: int|
                    0 <= j < k ==> !bp_matches(
                        #[trigger] self.breakpoints@[j],
                        m@,
                        self.log_index as int,
                        self.log_file_name@,
                    ),
            decreases n - k,
        {
            let b = &self.breakpoints[k];
            let on_source = b.line >= 0 && (b.line as u128) == (m.line as u128)
                && crate::text::str_eq(b.path.as_str(), m.file.as_str());
            let on_log = b.line >= 0 && (b.line as u128) == (self.log_index as u128) + 1
                && crate::text::str_eq(b.path.as_str(), self.log_file_name.as_str());
            if on_source || on_log {
                assert(bp_matches(
                    self.breakpoints@[k as int],
                    m@,
                    self.log_index as int,
                    self.log_file_name@,
                ));
                return true;
            }
            assert(!bp_matches(
                self.breakpoints@[k as int],
                m@,
                self.log_index as int,
                self.log_file_name@,
            ));
            k = k + 1;
        }
        false
    }

    /// Find the best match for the current line, advancing past lines that
    /// do not parse or score zero, as far as the direction of travel allows.
    /// When the scan runs off the log it fails; if the machine was running,
    /// it stops there with an entry event.
    pub fn get_log_match(&mut self) -> (r: (Option<LogMatch>, Option<StoppedEvent>))
        requires
            old(self).wf(),
        ensures
            final(self).wf(),
            old(self).same_session(*final(self)),
            final(self).breakpoints == old(self).breakpoints,
            final(self).reverse == old(self).reverse,
            match old(self).next_scored(old(self).log_index as int) {
                Some(i) => {
                    &&& r.0 matches Some(m) && Some(m@) == old(self).match_at(i)
                    &&& final(self).log_index == i
                    &&& final(self).running == old(self).running
                    &&& r.1 is None
                },
                None => {
                    &&& r.0 is None
                    &&& final(self).log_index == old(self).end_index()
                    &&& !final(self).running
                    &&& (old(self).running ==> (r.1 matches Some(e) && is_stop_event(
                        e,
                        StopReason::Entry,
                        old(self).desc_at(old(self).end_index()),
                    )))
                    &&& (!old(self).running ==> r.1 is None)
                },
            },
    {
        let ghost orig = *self;
        loop
            invariant
                self.wf(),
                orig.wf(),
                orig == *old(self),
                orig.same_session(*self),
                self.breakpoints == orig.breakpoints,
                self.reverse == orig.reverse,
                self.running == orig.running,
                orig.next_scored(orig.log_index as int) == orig.next_scored(self.log_index as int),
            decreases (if self.reverse {
                self.log_index as int
            } else {
                self.line_count() - 1 - self.log_index
            }),
        {
            let ghost i = self.log_index as int;
            let res = self.searcher.search(self.log_lines[self.log_index].as_str());
            proof {
                assert(self.log_lines@[i]@ == orig.line_at(i));
                assert(opt_match_view(res) == orig.match_at(i));
            }
            let mut scored = false;
            if let Some(m) = &res {
                if m.score > 0 {
                    scored = true;
                }
            }
            if scored {
                proof {
                    assert(orig.scored_at(i));
                    assert(orig.next_scored(i) == Some(i));
                }
                return (res, None);
            }
            proof {
                assert(!orig.scored_at(i));
            }
            let before = self.log_index;
            let ev = self.increment_log_index();
            if self.log_index == before {
                proof {
                    if orig.reverse {
                        assert(orig.next_scored_rev(i - 1) is None);
                    } else {
                        assert(orig.next_scored_fwd(i + 1) is None);
                    }
                    assert(orig.next_scored(i) is None);
                }
                return (None, ev);
            }
            proof {
                if orig.reverse {
                    assert(orig.next_scored_rev(i) == orig.next_scored_rev(i - 1));
                } else {
                    assert(orig.next_scored_fwd(i) == orig.next_scored_fwd(i + 1));
                }
            }
        }
    }

    /// One tick of the run loop.  When the machine is running it advances
    /// one line, skips on to the next line with a positive match, and stops
    /// with a breakpoint event when one is hit, or with an entry event when
    /// the scan runs off the log.
    pub fn tick(&mut self) -> (ev: Option<StoppedEvent>)
        requires
            old(self).wf(),
        ensures
            tick_post(*old(self), *final(self), ev),
    {
        if !self.running {
            return None;
        }
        let e0 = self.increment_log_index();
        if e0.is_some() {
            return e0;
        }
        let ghost s2 = *self;
        proof {
            lemma_next_scored_stable(*old(self), s2, s2.log_index as int);
        }
        let (m_opt, e1) = self.get_log_match();
        if e1.is_some() {
            return e1;
        }
        let m = match m_opt {
            Some(m) => m,
            None => {
                proof {
                    assert(false);
                }
                return None;
            },
        };
        let hit = self.breakpoint_hit(&m);
        proof {
            let i = self.log_index as int;
            assert(self.bp_hit(m@, i) == old(self).bp_hit(m@, i));
        }
        if hit {
            let e = self.stop(StopReason::Breakpoint);
            Some(e)
        } else {
            None
        }
    }
}

/// The view of an optional line list.
pub open spec fn opt_lines_view(lines: Option<Vec<i64>>) -> Option<Seq<i64>> {
    match lines {
        Some(ls) => Some(ls@),
        None => None,
    }
}

/// What replacing a path's breakpoints leaves: the other paths' breakpoints
/// in order, then one breakpoint per given line for the named path.
pub open spec fn set_bps_post(
    olds: Seq<RetreadBreakpoint>,
    news: Seq<RetreadBreakpoint>,
    path: Option<Seq<char>>,
    lines: Option<Seq<i64>>,
) -> bool {
    let dropped = drop_path(olds, path);
    let added: Seq<i64> = if path is Some && lines is Some {
        lines->0
    } else {
        seq![]
    };
    &&& news.len() == dropped.len() + added.len()
    &&& (forall|j: int| 0 <= j < dropped.len() ==> news[j] == dropped[j])
    &&& (forall|j: int|
        0 <= j < added.len() ==> (#[trigger] news[dropped.len() + j]).path@ == path->0 && news[
            dropped.len() + j].line == added[j])
}

/// The name of the inner stack frame: the captured function, or the matched
/// file's base name, then a colon and the matched line.
pub open spec fn frame_name_spec(q: QueryView, m: MatchView) -> Seq<char> {
    (match q.func {
        Some(f) => f,
        None => basename_spec(m.file),
    }) + ":"@ + crate::text::dec_str(m.line as nat)
}

impl RunningState {
    /// Build the name of the inner stack frame.
    fn frame_name(search: &LogLineSearch, m: &LogMatch) -> (r: String)
        ensures
            r@ == frame_name_spec(search@, m@),
    {
        let mut name: String = match &search.func {
            Some(f) => f.clone(),
            None => basename(m.file.as_str()),
        };
        name.append(":");
        crate::text::append_dec(&mut name, m.line);
        proof {
            reveal_strlit(":");
        }
        assert(name@ =~= frame_name_spec(search@, m@));
        name
    }

    /// The log file as a source: its base name and its path.
    pub fn get_log_file_source(&self) -> (r: (String, String))
        ensures
            r.0@ == basename_spec(self.log_file_name@),
            r.1@ == self.log_file_name@,
    {
        (basename(self.log_file_name.as_str()), self.log_file_name.clone())
    }

    /// Dispatch one request.  The returned actions are emitted in order; the
    /// flag asks the surroundings to shut the session down.
    pub fn run(&mut self, cmd: Command) -> (r: (Vec<Action>, bool))
        requires
            old(self).wf(),
        ensures
            run_post(*old(self), *final(self), cmd, r.0@, r.1),
    {
        let mut actions: Vec<Action> = Vec::new();
        match cmd {
            Command::Next | Command::StepIn | Command::StepOut => {
                actions.push(Action::Respond(Response::Ack));
                self.running = false;
                self.reverse = false;
                // The run flag is down, so the advance cannot stop by itself.
                let _ = self.increment_log_index();
                let ev = self.stop(StopReason::Step);
                actions.push(Action::EmitStopped(ev));
                (actions, false)
            },
            Command::StepBack => {
                actions.push(Action::Respond(Response::Ack));
                self.running = false;
                self.reverse = true;
                // The run flag is down, so the advance cannot stop by itself.
                let _ = self.increment_log_index();
                let ev = self.stop(StopReason::Step);
                actions.push(Action::EmitStopped(ev));
                (actions, false)
            },
            Command::ReverseContinue => {
                actions.push(Action::Respond(Response::Ack));
                self.reverse = true;
                self.running = true;
                (actions, false)
            },
            Command::Continue => {
                self.reverse = false;
                self.running = true;
                actions.push(
                    Action::Respond(Response::ContinueAll { all_threads_continued: true }),
                );
                (actions, false)
            },
            Command::Pause => {
                self.running = false;
                actions.push(Action::Respond(Response::Ack));
                let ev = self.stop(StopReason::Pause);
                actions.push(Action::EmitStopped(ev));
                (actions, false)
            },
            Command::SetBreakpoints { path, lines } => {
                self.set_breakpoints(&path, &lines);
                (actions, false)
            },
            Command::SetExceptionBreakpoints => {
                actions.push(Action::Respond(Response::Ack));
                (actions, false)
            },
            Command::Threads => {
                actions.push(
                    Action::Respond(Response::Threads { id: 0, name: "main".to_owned() }),
                );
                (actions, false)
            },
            Command::Variables => {
                match self.get_log_line_search() {
                    Ok(s) => {
                        actions.push(
                            Action::Respond(
                                Response::Variables {
                                    name: "Variable name".to_owned(),
                                    value: s.message,
                                },
                            ),
                        );
                    },
                    Err(e) => {
                        let message = e.response_message(self.log_lines[self.log_index].as_str());
                        actions.push(Action::Respond(Response::Error { message }));
                    },
                }
                (actions, false)
            },
            Command::Disconnect => {
                actions.push(Action::Respond(Response::Ack));
                (actions, true)
            },
            Command::Initialize | Command::Launch { .. } | Command::Unknown => (actions, false),
            Command::StackTrace => {
                let (m_opt, ev0) = self.get_log_match();
                if let Some(e) = ev0 {
                    actions.push(Action::EmitStopped(e));
                }
                match m_opt {
                    None => {
                        actions.push(
                            Action::Respond(
                                Response::Error {
                                    message: "Unable to find a matching source line".to_owned(),
                                },
                            ),
                        );
                        (actions, false)
                    },
                    Some(m) => {
                        match self.get_log_line_search() {
                            Err(e) => {
                                let message = e.response_message(
                                    self.log_lines[self.log_index].as_str(),
                                );
                                actions.push(Action::Respond(Response::Error { message }));
                                (actions, false)
                            },
                            Ok(search) => {
                                let name = Self::frame_name(&search, &m);
                                let source_name = basename(m.file.as_str());
                                let frame = StackFrameInfo {
                                    id: 0,
                                    name,
                                    source_path: m.file,
                                    source_name,
                                    line: m.line,
                                };
                                let n = self.log_lines.len();
                                assert(self.log_index < n);
                                let (log_name, log_path) = self.get_log_file_source();
                                let parent_name = basename(self.log_file_name.as_str());
                                let parent = StackFrameInfo {
                                    id: 1,
                                    name: parent_name,
                                    source_path: log_path,
                                    source_name: log_name,
                                    line: self.log_index + 1,
                                };
                                let mut frames: Vec<StackFrameInfo> = Vec::new();
                                frames.push(frame);
                                frames.push(parent);
                                actions.push(
                                    Action::Respond(
                                        Response::StackTrace { frames, total_frames: 1 },
                                    ),
                                );
                                (actions, false)
                            },
                        }
                    },
                }
            },
            Command::Scopes { frame_id } => {
                if frame_id == 0 {
                    let (m_opt, ev0) = self.get_log_match();
                    if let Some(e) = ev0 {
                        actions.push(Action::EmitStopped(e));
                    }
                    match m_opt {
                        None => {
                            actions.push(
                                Action::Respond(
                                    Response::Error {
                                        message: "Unable to find a matching source line".to_owned(),
                                    },
                                ),
                            );
                            (actions, false)
                        },
                        Some(m) => {
                            let scope = ScopeInfo {
                                name: "Locals".to_owned(),
                                variables_reference: 133,
                                line: m.line,
                            };
                            let mut scopes: Vec<ScopeInfo> = Vec::new();
                            scopes.push(scope);
                            actions.push(Action::Respond(Response::Scopes { scopes }));
                            (actions, false)
                        },
                    }
                } else {
                    let scopes: Vec<ScopeInfo> = Vec::new();
                    actions.push(Action::Respond(Response::Scopes { scopes }));
                    (actions, false)
                }
            },
        }
    }
}

/// The state before a successful launch: only initialize and launch requests
/// are answered.
pub struct UninitializedState {}

impl UninitializedState {
    /// A fresh, unconfigured adapter.
    pub fn new() -> (r: Self) {
        UninitializedState {  }
    }

    /// Dispatch one request.  Initialize advertises the capabilities; a
    /// launch request is validated and, when sound, handed back as a
    /// `PrepareLaunch` action for the surroundings to read the files for;
    /// anything else is ignored.
    pub fn run(&mut self, cmd: Command) -> (r: Vec<Action>)
        ensures
            uninit_run_post(cmd, r@),
    {
        let mut actions: Vec<Action> = Vec::new();
        match cmd {
            Command::Initialize => {
                actions.push(
                    Action::Respond(
                        Response::Capabilities {
                            supports_step_back: true,
                            supports_restart_request: false,
                        },
                    ),
                );
            },
            Command::Launch { additional_data } => {
                match load_settings(&additional_data) {
                    Ok(cfg) => {
                        actions.push(Action::PrepareLaunch(cfg));
                    },
                    Err(e) => {
                        actions.push(Action::Respond(Response::Error { message: e.message() }));
                    },
                }
            },
            _ => {},
        }
        actions
    }
}

impl Default for UninitializedState {
    fn default() -> (r: Self)
        ensures
            r == (UninitializedState {  }),
    {
        UninitializedState::new()
    }
}

/// The phases of a session.
pub enum AppState {
    Uninitialized(UninitializedState),
    Running(RunningState),
    Exit,
}

/// The adapter: its current phase.
pub struct App {
    pub state: AppState,
}

impl App {
    /// Whatever phase the adapter is in is internally consistent.
    pub open spec fn wf(self) -> bool {
        match self.state {
            AppState::Running(s) => s.wf(),
            _ => true,
        }
    }

    /// A fresh adapter, waiting for initialize and launch.
    pub fn init() -> (r: Self)
        ensures
            r.state is Uninitialized,
            r.wf(),
    {
        App { state: AppState::Uninitialized(UninitializedState::new()) }
    }

    /// One turn of the session loop: when running, one tick of the replay;
    /// then one request dispatched, if one arrived.  The returned actions
    /// are emitted in order.
    pub fn app_loop(&mut self, cmd: Option<Command>) -> (r: Vec<Action>)
        requires
            old(self).wf(),
        ensures
            final(self).wf(),
            old(self).state is Exit ==> *final(self) == *old(self) && r@.len() == 0,
            old(self).state is Uninitialized && cmd is None ==> final(self).state
                is Uninitialized && r@.len() == 0,
            old(self).state is Uninitialized ==> (cmd matches Some(c) ==> (final(self).state
                is Uninitialized && uninit_run_post(c, r@))),
            old(self).state matches AppState::Running(s) ==> {
                &&& (cmd is None ==> (final(self).state matches AppState::Running(s2) && {
                    ||| (r@.len() == 0 && tick_post(s, s2, None))
                    ||| (r@.len() == 1 && (r@[0] matches Action::EmitStopped(e) && tick_post(
                        s,
                        s2,
                        Some(e),
                    )))
                }))
                &&& (cmd matches Some(c) ==> (exists|
                    mid: RunningState,
                    tev: Option<StoppedEvent>,
                    fin: RunningState,
                    tail: Seq<Action>,
                    exit: bool,
                |
                    {
                        &&& #[trigger] tick_post(s, mid, tev)
                        &&& #[trigger] run_post(mid, fin, c, tail, exit)
                        &&& r@ == (match tev {
                            Some(e) => seq![Action::EmitStopped(e)],
                            None => seq![],
                        }) + tail
                        &&& exit == (final(self).state is Exit)
                        &&& (!exit ==> final(self).state == AppState::Running(fin))
                    }))
            },
    {
        match &mut self.state {
            AppState::Exit => Vec::new(),
            AppState::Uninitialized(s) => {
                match cmd {
                    Some(c) => s.run(c),
                    None => Vec::new(),
                }
            },
            AppState::Running(s) => {
                let ghost pre = *s;
                let mut actions: Vec<Action> = Vec::new();
                let tick_ev = s.tick();
                let ghost mid = *s;
                let ghost tev = tick_ev;
                if let Some(ev) = tick_ev {
                    actions.push(Action::EmitStopped(ev));
                }
                let ghost head = actions@;
                let mut exit = false;
                if let Some(c) = cmd {
                    let (mut acts, ex) = s.run(c);
                    let ghost tail = acts@;
                    let ghost fin = *s;
                    actions.append(&mut acts);
                    exit = ex;
                    proof {
                        assert(actions@ == head + tail);
                        assert(head =~= (match tev {
                            Some(e) => seq![Action::EmitStopped(e)],
                            None => Seq::<Action>::empty(),
                        }));
                        assert(tick_post(pre, mid, tev));
                        assert(run_post(mid, fin, c, tail, exit));
                    }
                }
                if exit {
                    self.state = AppState::Exit;
                }
                actions
            },
        }
    }

    /// Finish a launch once the surroundings have read the log file and the
    /// corpus: enter the replay and stop at its entry, or stay unconfigured
    /// when the log is empty.  In any other phase nothing happens.
    pub fn complete_launch(&mut self, settings: LogSearchSettings, files: Vec<(String, String)>) -> (r:
        Vec<Action>)
        requires
            old(self).wf(),
            settings.log_pattern.wf(),
        ensures
            final(self).wf(),
            !(old(self).state is Uninitialized) ==> *final(self) == *old(self) && r@.len() == 0,
            old(self).state is Uninitialized && lines_of(settings.log_file@).len() == 0 ==> {
                &&& final(self).state is Uninitialized
                &&& r@.len() == 2
                &&& r@[0] matches Action::Respond(Response::Ack)
                &&& r@[1] is EmitInitialized
            },
            old(self).state is Uninitialized && lines_of(settings.log_file@).len() > 0 ==> {
                &&& final(self).state matches AppState::Running(s)
                &&& s.wf()
                &&& s.log_index == 0
                &&& !s.running
                &&& !s.reverse
                &&& s.breakpoints@.len() == 0
                &&& s.log_file_name@ == settings.log_file_name@
                &&& s.log_lines.deep_view() == lines_of(settings.log_file@)
                &&& s.searcher.pattern() == settings.log_pattern.pattern()
                &&& s.searcher.corpus() == files.deep_view()
                &&& r@.len() == 3
                &&& r@[0] matches Action::Respond(Response::Ack)
                &&& r@[1] is EmitInitialized
                &&& (r@[2] matches Action::EmitStopped(e) && is_stop_event(
                    e,
                    StopReason::Entry,
                    s.desc_at(0),
                ))
            },
    {
        let mut actions: Vec<Action> = Vec::new();
        match &self.state {
            AppState::Uninitialized(_) => {
                actions.push(Action::Respond(Response::Ack));
                actions.push(Action::EmitInitialized);
                match RunningState::new(settings, files) {
                    Some(mut rs) => {
                        let ev = rs.init();
                        actions.push(Action::EmitStopped(ev));
                        self.state = AppState::Running(rs);
                        actions
                    },
                    None => actions,
                }
            },
            _ => actions,
        }
    }
}

/// The cursor of a well-formed running state always lies inside the log.
pub proof fn lemma_running_cursor_in_range(s: RunningState)
    requires
        s.wf(),
    ensures
        0 <= s.log_index < s.line_count(),
{
}

/// The 1-based lines of the breakpoints set on one path.
pub open spec fn bp_lines_for(bps: Seq<RetreadBreakpoint>, p: Seq<char>) -> Set<int> {
    Set::new(
        |l: int|
            exists|k: int|
                0 <= k < bps.len() && (#[trigger] bps[k]).path@ == p && bps[k].line as int == l,
    )
}

/// The values of a line list, as a set.
pub open spec fn lines_set(ls: Seq<i64>) -> Set<int> {
    Set::new(|l: int| exists|k: int| 0 <= k < ls.len() && (#[trigger] ls[k]) as int == l)
}

/// A breakpoint survives the clearing of a path exactly when it was there
/// before and names another path.
proof fn lemma_drop_path_contains(olds: Seq<RetreadBreakpoint>, p: Seq<char>, b: RetreadBreakpoint)
    ensures
        drop_path(olds, Some(p)).contains(b) <==> (olds.contains(b) && b.path@ != p),
    decreases olds.len(),
{
    if olds.len() == 0 {
        assert(!olds.contains(b));
    } else {
        let rest = olds.drop_first();
        lemma_drop_path_contains(rest, p, b);
        let d = drop_path(olds, Some(p));
        let dr = drop_path(rest, Some(p));
        if bp_keep(olds[0], Some(p)) {
            assert(d == seq![olds[0]] + dr);
            assert forall|j: int| 0 <= j < d.len() implies (d[j] == olds[0] || dr.contains(
                d[j],
            )) by {
                if j > 0 {
                    assert(d[j] == dr[j - 1]);
                }
            }
            if d.contains(b) {
                assert(olds.contains(b) && b.path@ != p) by {
                    let j = choose|j: int| 0 <= j < d.len() && d[j] == b;
                    if j == 0 {
                        assert(olds[0] == b);
                    } else {
                        assert(dr.contains(d[j]));
                        let k = choose|k: int| 0 <= k < rest.len() && rest[k] == b;
                        assert(olds[k + 1] == b);
                    }
                }
            }
            if olds.contains(b) && b.path@ != p {
                assert(d.contains(b)) by {
                    let k = choose|k: int| 0 <= k < olds.len() && olds[k] == b;
                    if k == 0 {
                        assert(d[0] == b);
                    } else {
                        assert(rest[k - 1] == b);
                        assert(dr.contains(b));
                        let j = choose|j: int| 0 <= j < dr.len() && dr[j] == b;
                        assert(d[j + 1] == b);
                    }
                }
            }
        } else {
            assert(d == dr);
            if d.contains(b) {
                let k = choose|k: int| 0 <= k < rest.len() && rest[k] == b;
                assert(olds[k + 1] == b);
            }
            if olds.contains(b) && b.path@ != p {
                let k = choose|k: int| 0 <= k < olds.len() && olds[k] == b;
                assert(k != 0);
                assert(rest[k - 1] == b);
            }
        }
    }
}

/// Replacing a path's breakpoints is exact: afterwards the lines set on that
/// path are exactly the given lines, and every other path's lines are
/// untouched.
pub proof fn lemma_set_breakpoints_restriction(
    olds: Seq<RetreadBreakpoint>,
    news: Seq<RetreadBreakpoint>,
    p: Seq<char>,
    ls: Seq<i64>,
)
    requires
        set_bps_post(olds, news, Some(p), Some(ls)),
    ensures
        bp_lines_for(news, p) =~= lines_set(ls),
        forall|q: Seq<char>| q != p ==> bp_lines_for(news, q) =~= bp_lines_for(olds, q),
{
    let dropped = drop_path(olds, Some(p));
    let dl = dropped.len() as int;
    assert forall|j: int| 0 <= j < dl implies (#[trigger] dropped[j]).path@ != p && olds.contains(
        dropped[j],
    ) by {
        lemma_drop_path_contains(olds, p, dropped[j]);
    }
    assert forall|l: int| lines_set(ls).contains(l) implies bp_lines_for(news, p).contains(l) by {
        let k = choose|k: int| 0 <= k < ls.len() && (#[trigger] ls[k]) as int == l;
        assert(news[dl + k].path@ == p && news[dl + k].line == ls[k]);
    }
    assert forall|l: int| bp_lines_for(news, p).contains(l) implies lines_set(ls).contains(l) by {
        let k = choose|k: int|
            0 <= k < news.len() && (#[trigger] news[k]).path@ == p && news[k].line as int == l;
        assert(k >= dl);
        assert(news[dl + (k - dl)].line == ls[k - dl]);
    }
    assert forall|q: Seq<char>| q != p implies bp_lines_for(news, q) =~= bp_lines_for(
        olds,
        q,
    ) by {
        assert forall|l: int| bp_lines_for(news, q).contains(l) implies bp_lines_for(
            olds,
            q,
        ).contains(l) by {
            let k = choose|k: int|
                0 <= k < news.len() && (#[trigger] news[k]).path@ == q && news[k].line as int == l;
            if k >= dl {
                assert(news[dl + (k - dl)].path@ == p);
            }
            assert(k < dl);
            assert(news[k] == dropped[k]);
            assert(olds.contains(dropped[k]));
            let k0 = choose|k0: int| 0 <= k0 < olds.len() && olds[k0] == dropped[k];
            assert(olds[k0].path@ == q && olds[k0].line as int == l);
        }
        assert forall|l: int| bp_lines_for(olds, q).contains(l) implies bp_lines_for(
            news,
            q,
        ).contains(l) by {
            let k = choose|k: int|
                0 <= k < olds.len() && (#[trigger] olds[k]).path@ == q && olds[k].line as int == l;
            lemma_drop_path_contains(olds, p, olds[k]);
            assert(olds.contains(olds[k]));
            assert(dropped.contains(olds[k]));
            let j = choose|j: int| 0 <= j < dropped.len() && dropped[j] == olds[k];
            assert(news[j] == dropped[j]);
            assert(news[j].path@ == q && news[j].line as int == l);
        }
    }
}

impl RunningState {
    /// How many lines remain beyond cursor `idx` in the direction of travel.
    pub open spec fn remaining_from(self, idx: int) -> int {
        if self.reverse {
            idx
        } else {
            self.line_count() - 1 - idx
        }
    }

    /// Whether `i` lies strictly beyond cursor `idx` in the direction of
    /// travel.
    pub open spec fn dir_from(self, idx: int, i: int) -> bool {
        if self.reverse {
            0 <= i < idx
        } else {
            idx < i < self.line_count()
        }
    }

    /// Whether `i` lies strictly beyond the cursor in the direction of
    /// travel.
    pub open spec fn in_direction(self, i: int) -> bool {
        self.dir_from(self.log_index as int, i)
    }

    /// Where a run with cursor `idx` ends, ticking until the run flag falls,
    /// and why: the final cursor and the stop's reason — a breakpoint, or
    /// the end of the log.
    pub open spec fn continue_stop_from(self, idx: int) -> (int, StopReason)
        decreases self.remaining_from(idx),
    {
        let bounded = if self.reverse {
            idx <= 0
        } else {
            idx + 1 >= self.line_count()
        };
        if bounded {
            (idx, StopReason::Entry)
        } else {
            let start = if self.reverse {
                idx - 1
            } else {
                idx + 1
            };
            match self.next_scored(start) {
                None => (self.end_index(), StopReason::Entry),
                Some(i) => if self.bp_hit(self.match_at(i)->0, i) {
                    (i, StopReason::Breakpoint)
                } else {
                    if 0 <= self.remaining_from(i) < self.remaining_from(idx) {
                        self.continue_stop_from(i)
                    } else {
                        (i, StopReason::Entry)
                    }
                },
            }
        }
    }

    /// Why a run with cursor `idx` eventually stops.
    pub open spec fn continue_outcome_from(self, idx: int) -> StopReason {
        self.continue_stop_from(idx).1
    }

    /// Where a run from the current state ends, and why.
    pub open spec fn continue_stop(self) -> (int, StopReason) {
        self.continue_stop_from(self.log_index as int)
    }

    /// Why a run from the current state eventually stops.
    pub open spec fn continue_outcome(self) -> StopReason {
        self.continue_stop().1
    }
}

/// A forward scan finds the first scored line: nothing before it is scored,
/// and when it finds none, nothing from the start on is scored.
proof fn lemma_next_scored_fwd_first(s: RunningState, j: int)
    requires
        0 <= j,
    ensures
        match s.next_scored_fwd(j) {
            Some(i) => j <= i < s.line_count() && s.scored_at(i) && (forall|k: int|
                j <= k < i ==> !s.scored_at(k)),
            None => forall|k: int| j <= k < s.line_count() ==> !s.scored_at(k),
        },
    decreases s.line_count() - j,
{
    if j < s.line_count() && !s.scored_at(j) {
        lemma_next_scored_fwd_first(s, j + 1);
    }
}

/// A backward scan finds the first scored line at or below the start.
proof fn lemma_next_scored_rev_first(s: RunningState, j: int)
    requires
        j < s.line_count(),
    ensures
        match s.next_scored_rev(j) {
            Some(i) => 0 <= i <= j && s.scored_at(i) && (forall|k: int|
                i < k <= j ==> !s.scored_at(k)),
            None => forall|k: int| 0 <= k <= j ==> !s.scored_at(k),
        },
    decreases j + 1,
{
    if j >= 0 && !s.scored_at(j) {
        lemma_next_scored_rev_first(s, j - 1);
    }
}

/// A run with cursor `idx` reaches a breakpoint exactly when some scored log
/// line beyond `idx` in the direction of travel satisfies a breakpoint.
proof fn lemma_continue_from_iff(s: RunningState, idx: int)
    requires
        0 <= idx < s.line_count(),
    ensures
        s.continue_outcome_from(idx) == StopReason::Breakpoint <==> (exists|i: int|
            s.dir_from(idx, i) && s.scored_at(i) && #[trigger] s.bp_hit(s.match_at(i)->0, i)),
    decreases s.remaining_from(idx),
{
    let bounded = if s.reverse {
        idx <= 0
    } else {
        idx + 1 >= s.line_count()
    };
    if bounded {
        assert(forall|i: int| !s.dir_from(idx, i));
    } else {
        let start = if s.reverse {
            idx - 1
        } else {
            idx + 1
        };
        if s.reverse {
            lemma_next_scored_rev_first(s, start);
        } else {
            lemma_next_scored_fwd_first(s, start);
        }
        match s.next_scored(start) {
            None => {
                assert(forall|i: int| s.dir_from(idx, i) ==> !s.scored_at(i));
            },
            Some(i) => {
                assert(s.dir_from(idx, i));
                if s.bp_hit(s.match_at(i)->0, i) {
                } else {
                    assert(0 <= s.remaining_from(i) < s.remaining_from(idx));
                    lemma_continue_from_iff(s, i);
                    if exists|k: int|
                        s.dir_from(idx, k) && s.scored_at(k) && #[trigger] s.bp_hit(
                            s.match_at(k)->0,
                            k,
                        ) {
                        let k = choose|k: int|
                            s.dir_from(idx, k) && s.scored_at(k) && #[trigger] s.bp_hit(
                                s.match_at(k)->0,
                                k,
                            );
                        assert(k != i);
                        assert(s.dir_from(i, k));
                    }
                    if exists|k: int|
                        s.dir_from(i, k) && s.scored_at(k) && #[trigger] s.bp_hit(
                            s.match_at(k)->0,
                            k,
                        ) {
                        let k = choose|k: int|
                            s.dir_from(i, k) && s.scored_at(k) && #[trigger] s.bp_hit(
                                s.match_at(k)->0,
                                k,
                            );
                        assert(s.dir_from(idx, k));
                    }
                }
            },
        }
    }
}

/// One tick realizes one step of the outcome: where `tick` stops, the
/// outcome is that stop's reason, and where it moves the cursor to the next
/// scored line without stopping, the outcome is unchanged — read together
/// with `tick`'s contract, which pins the cursor and the stop events to the
/// same `next_scored` and `bp_hit` terms.
pub proof fn lemma_outcome_unfold(s: RunningState)
    requires
        s.wf(),
    ensures
        s.at_boundary() ==> s.continue_stop() == (s.log_index as int, StopReason::Entry),
        !s.at_boundary() ==> {
            let start = if s.reverse {
                s.log_index - 1
            } else {
                s.log_index + 1
            };
            match s.next_scored(start) {
                None => s.continue_stop() == (s.end_index(), StopReason::Entry),
                Some(i) => if s.bp_hit(s.match_at(i)->0, i) {
                    s.continue_stop() == (i, StopReason::Breakpoint)
                } else {
                    s.continue_stop() == s.continue_stop_from(i)
                },
            }
        },
{
    if !s.at_boundary() {
        let start = if s.reverse {
            s.log_index - 1
        } else {
            s.log_index + 1
        };
        if s.reverse {
            lemma_next_scored_rev_first(s, start);
        } else {
            lemma_next_scored_fwd_first(s, start);
        }
    }
}

/// The outcome reads only the session, the direction and the breakpoints:
/// two states that share them agree on it wherever the cursor stands.
pub proof fn lemma_outcome_stable(s1: RunningState, s2: RunningState, idx: int)
    requires
        s1.same_session(s2),
        s1.reverse == s2.reverse,
        s1.breakpoints == s2.breakpoints,
    ensures
        s1.continue_stop_from(idx) == s2.continue_stop_from(idx),
    decreases
            (if s1.remaining_from(idx) >= 0 {
                s1.remaining_from(idx)
            } else {
                0
            }),
{
    let bounded = if s1.reverse {
        idx <= 0
    } else {
        idx + 1 >= s1.line_count()
    };
    if !bounded {
        let start = if s1.reverse {
            idx - 1
        } else {
            idx + 1
        };
        lemma_next_scored_stable(s1, s2, start);
        match s1.next_scored(start) {
            None => {},
            Some(i) => {
                if !s1.bp_hit(s1.match_at(i)->0, i) {
                    if 0 <= s1.remaining_from(i) < s1.remaining_from(idx) {
                        lemma_outcome_stable(s1, s2, i);
                    }
                }
            },
        }
    }
}

/// Running reaches a breakpoint exactly when some scored log line in the
/// direction of travel satisfies a breakpoint: it names that line's matched
/// source line, or that log line in the log file itself.
pub proof fn lemma_continue_reaches_breakpoint_iff(s: RunningState)
    requires
        s.wf(),
    ensures
        s.continue_outcome() == StopReason::Breakpoint <==> (exists|i: int|
            s.in_direction(i) && s.scored_at(i) && #[trigger] s.bp_hit(s.match_at(i)->0, i)),
{
    lemma_continue_from_iff(s, s.log_index as int);
}

/// A run with cursor `idx` stops exactly at the first scored line beyond it
/// in the direction of travel that satisfies a breakpoint, when one exists.
proof fn lemma_continue_first_hit_from(s: RunningState, idx: int, i: int)
    requires
        0 <= idx < s.line_count(),
        s.dir_from(idx, i),
        s.scored_at(i),
        s.bp_hit(s.match_at(i)->0, i),
        forall|j: int|
            s.dir_from(idx, j) && (if s.reverse {
                j > i
            } else {
                j < i
            }) ==> !(s.scored_at(j) && #[trigger] s.bp_hit(s.match_at(j)->0, j)),
    ensures
        s.continue_stop_from(idx) == (i, StopReason::Breakpoint),
    decreases s.remaining_from(idx),
{
    let start = if s.reverse {
        idx - 1
    } else {
        idx + 1
    };
    if s.reverse {
        lemma_next_scored_rev_first(s, start);
    } else {
        lemma_next_scored_fwd_first(s, start);
    }
    match s.next_scored(start) {
        None => {
            assert(!s.scored_at(i));
            assert(false);
        },
        Some(i0) => {
            if i0 != i {
                // The first scored line lies strictly between the cursor and
                // `i`, so by hypothesis no breakpoint stops there.
                if s.reverse {
                    assert(i0 > i) by {
                        if i0 < i {
                            assert(!s.scored_at(i));
                        }
                    }
                } else {
                    assert(i0 < i) by {
                        if i0 > i {
                            assert(!s.scored_at(i));
                        }
                    }
                }
                assert(s.dir_from(idx, i0));
                assert(!s.bp_hit(s.match_at(i0)->0, i0));
                assert(0 <= s.remaining_from(i0) < s.remaining_from(idx));
                lemma_continue_first_hit_from(s, i0, i);
            }
        },
    }
}

/// Continue stops exactly at the first scored log line in the direction of
/// travel that satisfies a breakpoint: the cursor lands on that line and the
/// stop's reason is `Breakpoint`.  A breakpoint on the log file is hit where
/// its line is that log line's 1-based position; one on a source file where
/// it names the line's matched source position.
pub proof fn lemma_continue_stops_at_first_breakpoint(s: RunningState, i: int)
    requires
        s.wf(),
        s.in_direction(i),
        s.scored_at(i),
        s.bp_hit(s.match_at(i)->0, i),
        forall|j: int|
            s.in_direction(j) && (if s.reverse {
                j > i
            } else {
                j < i
            }) ==> !(s.scored_at(j) && #[trigger] s.bp_hit(s.match_at(j)->0, j)),
    ensures
        s.continue_stop() == (i, StopReason::Breakpoint),
{
    lemma_continue_first_hit_from(s, s.log_index as int, i);
}

/// What one tick guarantees: how the post state and the emitted stop
/// event relate to the pre state.
pub open spec fn tick_post(pre: RunningState, post: RunningState, ev: Option<StoppedEvent>) -> bool {
    &&& (post.wf())
    &&& (pre.same_session(post))
    &&& (post.breakpoints == pre.breakpoints)
    &&& (post.reverse == pre.reverse)
    &&& (!pre.running ==> post == pre && ev is None)
    &&& ({
            pre.running && pre.at_boundary() ==> {
                &&& post.log_index == pre.log_index
                &&& !post.running
                &&& ev matches Some(e) && is_stop_event(
                    e,
                    StopReason::Entry,
                    pre.desc_at(pre.log_index as int),
                )
            }
    })
    &&& ({
            pre.running && !pre.at_boundary() ==> {
                let start = if pre.reverse {
                    pre.log_index - 1
                } else {
                    pre.log_index + 1
                };
                match pre.next_scored(start) {
                    Some(i) => {
                        &&& post.log_index == i
                        &&& (pre.bp_hit(pre.match_at(i)->0, i) ==> {
                            &&& !post.running
                            &&& ev matches Some(e) && is_stop_event(
                                e,
                                StopReason::Breakpoint,
                                pre.desc_at(i),
                            )
                        })
                        &&& (!pre.bp_hit(pre.match_at(i)->0, i) ==> {
                            &&& post.running
                            &&& ev is None
                        })
                    },
                    None => {
                        &&& post.log_index == pre.end_index()
                        &&& !post.running
                        &&& ev matches Some(e) && is_stop_event(
                            e,
                            StopReason::Entry,
                            pre.desc_at(pre.end_index()),
                        )
                    },
                }
            }
    })
}

/// What dispatching one request guarantees: how the post state, the
/// emitted actions and the shutdown flag relate to the pre state and the
/// command.
pub open spec fn run_post(pre: RunningState, post: RunningState, cmd: Command, acts: Seq<Action>, exit: bool) -> bool {
    &&& (post.wf())
    &&& (pre.same_session(post))
    &&& (exit == (cmd is Disconnect))
    &&& ({
            (cmd matches Command::Next || cmd matches Command::StepIn || cmd
                matches Command::StepOut) ==> {
                &&& !post.running
                &&& !post.reverse
                &&& post.breakpoints == pre.breakpoints
                &&& post.log_index == if pre.log_index + 1 < pre.line_count() {
                    pre.log_index + 1
                } else {
                    pre.log_index as int
                }
                &&& acts.len() == 2
                &&& acts[0] matches Action::Respond(Response::Ack)
                &&& (acts[1] matches Action::EmitStopped(e) && is_stop_event(
                    e,
                    StopReason::Step,
                    pre.desc_at(post.log_index as int),
                ))
            }
    })
    &&& ({
            cmd is StepBack ==> {
                &&& !post.running
                &&& post.reverse
                &&& post.breakpoints == pre.breakpoints
                &&& post.log_index == if pre.log_index > 0 {
                    pre.log_index - 1
                } else {
                    0
                }
                &&& acts.len() == 2
                &&& acts[0] matches Action::Respond(Response::Ack)
                &&& (acts[1] matches Action::EmitStopped(e) && is_stop_event(
                    e,
                    StopReason::Step,
                    pre.desc_at(post.log_index as int),
                ))
            }
    })
    &&& ({
            cmd is Continue ==> {
                &&& post.running
                &&& !post.reverse
                &&& post.log_index == pre.log_index
                &&& post.breakpoints == pre.breakpoints
                &&& acts.len() == 1
                &&& (acts[0] matches Action::Respond(
                    Response::ContinueAll { all_threads_continued },
                ) && all_threads_continued)
            }
    })
    &&& ({
            cmd is ReverseContinue ==> {
                &&& post.running
                &&& post.reverse
                &&& post.log_index == pre.log_index
                &&& post.breakpoints == pre.breakpoints
                &&& acts.len() == 1
                &&& acts[0] matches Action::Respond(Response::Ack)
            }
    })
    &&& ({
            cmd is Pause ==> {
                &&& !post.running
                &&& post.reverse == pre.reverse
                &&& post.log_index == pre.log_index
                &&& post.breakpoints == pre.breakpoints
                &&& acts.len() == 2
                &&& acts[0] matches Action::Respond(Response::Ack)
                &&& (acts[1] matches Action::EmitStopped(e) && is_stop_event(
                    e,
                    StopReason::Pause,
                    pre.desc_at(pre.log_index as int),
                ))
            }
    })
    &&& ({
            cmd matches Command::SetBreakpoints { path, lines } ==> {
                &&& post.log_index == pre.log_index
                &&& post.running == pre.running
                &&& post.reverse == pre.reverse
                &&& set_bps_post(
                    pre.breakpoints@,
                    post.breakpoints@,
                    opt_path_view(path),
                    opt_lines_view(lines),
                )
                &&& acts.len() == 0
            }
    })
    &&& ({
            cmd is SetExceptionBreakpoints ==> {
                &&& post == pre
                &&& acts.len() == 1
                &&& acts[0] matches Action::Respond(Response::Ack)
            }
    })
    &&& ({
            cmd is Threads ==> {
                &&& post == pre
                &&& acts.len() == 1
                &&& (acts[0] matches Action::Respond(Response::Threads { id, name }) && id == 0
                    && name@ == "main"@)
            }
    })
    &&& ({
            cmd is Variables ==> {
                &&& post == pre
                &&& acts.len() == 1
                &&& match pre.parse_at(pre.log_index as int) {
                    Ok(q) => acts[0] matches Action::Respond(
                        Response::Variables { name, value },
                    ) && name@ == "Variable name"@ && value@ == q.message,
                    Err(e) => acts[0] matches Action::Respond(Response::Error { message })
                        && message@ == e.response_message_spec(pre.line_at(pre.log_index as int)),
                }
            }
    })
    &&& ({
            cmd is Disconnect ==> {
                &&& post == pre
                &&& acts.len() == 1
                &&& acts[0] matches Action::Respond(Response::Ack)
            }
    })
    &&& ({
            cmd is Initialize || cmd is Launch || cmd is Unknown ==> {
                &&& post == pre
                &&& acts.len() == 0
            }
    })
    &&& ({
            cmd is StackTrace ==> {
                &&& post.breakpoints == pre.breakpoints
                &&& post.reverse == pre.reverse
                &&& match pre.next_scored(pre.log_index as int) {
                    Some(i) => {
                        &&& post.log_index == i
                        &&& post.running == pre.running
                        &&& match pre.parse_at(i) {
                            Ok(q) => {
                                &&& acts.len() == 1
                                &&& (acts[0] matches Action::Respond(
                                    Response::StackTrace { frames, total_frames },
                                ) && {
                                    let m = pre.match_at(i)->0;
                                    &&& total_frames == 1
                                    &&& frames@.len() == 2
                                    &&& frames@[0].id == 0
                                    &&& frames@[0].name@ == frame_name_spec(q, m)
                                    &&& frames@[0].source_path@ == m.file
                                    &&& frames@[0].source_name@ == basename_spec(m.file)
                                    &&& frames@[0].line == m.line
                                    &&& frames@[1].id == 1
                                    &&& frames@[1].name@ == basename_spec(
                                        pre.log_file_name@,
                                    )
                                    &&& frames@[1].source_path@ == pre.log_file_name@
                                    &&& frames@[1].source_name@ == basename_spec(
                                        pre.log_file_name@,
                                    )
                                    &&& frames@[1].line == i + 1
                                })
                            },
                            Err(e) => {
                                &&& acts.len() == 1
                                &&& (acts[0] matches Action::Respond(Response::Error { message })
                                    && message@ == e.response_message_spec(pre.line_at(i)))
                            },
                        }
                    },
                    None => {
                        &&& post.log_index == pre.end_index()
                        &&& !post.running
                        &&& (acts.last() matches Action::Respond(Response::Error { message })
                            && message@ == "Unable to find a matching source line"@)
                        &&& (pre.running ==> acts.len() == 2 && (acts[0]
                            matches Action::EmitStopped(e) && is_stop_event(
                            e,
                            StopReason::Entry,
                            pre.desc_at(pre.end_index()),
                        )))
                        &&& (!pre.running ==> acts.len() == 1)
                    },
                }
            }
    })
    &&& ({
            cmd matches Command::Scopes { frame_id } ==> {
                &&& post.breakpoints == pre.breakpoints
                &&& post.reverse == pre.reverse
                &&& (frame_id != 0 ==> post == pre && acts.len() == 1 && (acts[0]
                    matches Action::Respond(Response::Scopes { scopes }) && scopes@.len() == 0))
                &&& (frame_id == 0 ==> match pre.next_scored(pre.log_index as int) {
                    Some(i) => {
                        &&& post.log_index == i
                        &&& post.running == pre.running
                        &&& acts.len() == 1
                        &&& (acts[0] matches Action::Respond(Response::Scopes { scopes })
                            && scopes@.len() == 1 && scopes@[0].name@ == "Locals"@
                            && scopes@[0].variables_reference == 133 && scopes@[0].line == pre.match_at(i)->0.line)
                    },
                    None => {
                        &&& post.log_index == pre.end_index()
                        &&& !post.running
                        &&& (acts.last() matches Action::Respond(Response::Error { message })
                            && message@ == "Unable to find a matching source line"@)
                        &&& (pre.running ==> acts.len() == 2 && (acts[0]
                            matches Action::EmitStopped(e) && is_stop_event(
                            e,
                            StopReason::Entry,
                            pre.desc_at(pre.end_index()),
                        )))
                        &&& (!pre.running ==> acts.len() == 1)
                    },
                })
            }
    })
}

/// What the unconfigured state's dispatch guarantees about the actions it
/// returns for one request.
pub open spec fn uninit_run_post(cmd: Command, acts: Seq<Action>) -> bool {
    &&& ({
            cmd is Initialize ==> acts.len() == 1 && (acts[0] matches Action::Respond(
                Response::Capabilities { supports_step_back, supports_restart_request },
            ) && supports_step_back && !supports_restart_request)
    })
    &&& ({
            cmd matches Command::Launch { additional_data } ==> match load_settings_spec(
                additional_data,
            ) {
                Ok(lv) => acts.len() == 1 && (acts[0] matches Action::PrepareLaunch(cfg) && cfg@ == lv),
                Err(e) => acts.len() == 1 && (acts[0] matches Action::Respond(
                    Response::Error { message },
                ) && message@ == e.message_spec()),
            }
    })
    &&& (!(cmd is Initialize) && !(cmd is Launch) ==> acts.len() == 0)
}

/// Scanning for the next scored line reads only the session and the
/// direction: two states that share them agree on it.
pub proof fn lemma_next_scored_stable(s1: RunningState, s2: RunningState, i: int)
    requires
        s1.same_session(s2),
        s1.reverse == s2.reverse,
    ensures
        s1.next_scored(i) == s2.next_scored(i),
    decreases
            (if s1.reverse {
                i + 1
            } else {
                s1.line_count() - i
            }),
{
    if i < 0 || i >= s1.line_count() {
    } else {
        assert(s1.scored_at(i) == s2.scored_at(i));
        if !s1.scored_at(i) {
            if s1.reverse {
                lemma_next_scored_stable(s1, s2, i - 1);
            } else {
                lemma_next_scored_stable(s1, s2, i + 1);
            }
        }
    }
}

} // verus!
