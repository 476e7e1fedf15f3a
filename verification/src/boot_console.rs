//! The interactive start, while boot services still run: the firmware console is
//! switched to its largest text mode, typed keys are echoed, and Enter, or a short idle
//! window without any key, moves on to the runtime. The firmware calls are the
//! caller's; these types decide what follows each of them.

use vstd::prelude::*;

verus! {

/// Status of a firmware call that succeeded.
pub const QUERY_SUCCESS: usize = 0;

/// The character that Enter produces.
pub const ENTER: u16 = 0x0D;

/// Idle polls (no key read yet) after which the runtime starts on its own.
pub const IDLE_POLL_LIMIT: u32 = 30;

/// Pause between two idle polls, in microseconds (`IDLE_POLL_LIMIT` of them make a
/// three-second window).
pub const POLL_INTERVAL_MICROSECONDS: usize = 100_000;

/// Cells of a text mode.
pub open spec fn mode_area(columns: usize, rows: usize) -> int {
    columns * rows
}

/// One `QueryMode` answer: mode number, status, columns, rows.
pub type ModeQuery = (usize, usize, usize, usize);

/// Whether a mode of `columns` by `rows` beats `best`: there is none yet, or it has
/// more cells.
pub open spec fn larger_than(columns: usize, rows: usize, best: Option<(usize, usize, usize)>) -> bool {
    match best {
        None => true,
        Some(b) => mode_area(columns, rows) > mode_area(b.1, b.2),
    }
}

/// The largest mode among the successful answers in `queries` (by cells; of equal ones,
/// the first), as (mode, columns, rows).
pub open spec fn largest_mode(queries: Seq<ModeQuery>) -> Option<(usize, usize, usize)>
    decreases queries.len(),
{
    if queries.len() == 0 {
        None
    } else {
        let prev = largest_mode(queries.drop_last());
        let q = queries.last();
        if q.1 == QUERY_SUCCESS && larger_than(q.2, q.3, prev) {
            Some((q.0, q.2, q.3))
        } else {
            prev
        }
    }
}

/// `mode_area`, computed without overflow.
fn cells(columns: usize, rows: usize) -> (n: u128)
    ensures
        n == mode_area(columns, rows),
{
    let c = columns as u128;
    let r = rows as u128;
    assert(c * r <= 0xFFFF_FFFF_FFFF_FFFFu128 * 0xFFFF_FFFF_FFFF_FFFFu128) by (nonlinear_arith)
        requires
            c <= 0xFFFF_FFFF_FFFF_FFFFu128,
            r <= 0xFFFF_FFFF_FFFF_FFFFu128,
    ;
    c * r
}

/// Choice of the text mode from the answers to `QueryMode`.
pub struct TextModeChoice {
    best: Option<(usize, usize, usize)>,
    queries: Ghost<Seq<ModeQuery>>,
}

impl TextModeChoice {
    /// The answers taken so far.
    pub closed spec fn queries(&self) -> Seq<ModeQuery> {
        self.queries@
    }

    /// The mode chosen so far, with its columns and rows.
    pub closed spec fn best(&self) -> Option<(usize, usize, usize)> {
        self.best
    }

    pub open spec fn wf(&self) -> bool {
        self.best() == largest_mode(self.queries())
    }

    /// No answer taken yet.
    pub fn new() -> (choice: TextModeChoice)
        ensures
            choice.wf(),
            choice.queries() == Seq::<ModeQuery>::empty(),
    {
        TextModeChoice { best: None, queries: Ghost(Seq::empty()) }
    }

    /// Takes `QueryMode`'s answer for `mode`: `status`, and on success its size.
    pub fn consider(&mut self, mode: usize, status: usize, columns: usize, rows: usize)
        requires
            old(self).wf(),
        ensures
            final(self).wf(),
            final(self).queries() == old(self).queries().push((mode, status, columns, rows)),
    {
        let ghost q = (mode, status, columns, rows);
        let ghost all = self.queries@.push(q);
        proof {
            assert(all.drop_last() =~= self.queries@);
        }
        if status == QUERY_SUCCESS {
            let larger = match self.best {
                None => true,
                Some((_, c, r)) => {
                    cells(columns, rows) > cells(c, r)
                },
            };
            if larger {
                self.best = Some((mode, columns, rows));
            }
        }
        self.queries = Ghost(all);
    }

    /// The mode to set, if any answer succeeded.
    pub fn chosen(&self) -> (mode: Option<usize>)
        requires
            self.wf(),
        ensures
            mode == match largest_mode(self.queries()) {
                Some(b) => Some(b.0),
                None => None::<usize>,
            },
    {
        match self.best {
            Some((mode, _, _)) => Some(mode),
            None => None,
        }
    }
}

/// Of every successful answer none is larger than the chosen mode, the chosen mode is
/// one of the successful answers, and no earlier answer is as large.
pub proof fn lemma_largest_mode(queries: Seq<ModeQuery>)
    ensures
        largest_mode(queries) is None <==> forall|i: int|
            0 <= i < queries.len() ==> #[trigger] queries[i].1 != QUERY_SUCCESS,
        largest_mode(queries) matches Some(b) ==> {
            &&& forall|i: int|
                0 <= i < queries.len() && #[trigger] queries[i].1 == QUERY_SUCCESS ==> mode_area(
                    queries[i].2,
                    queries[i].3,
                ) <= mode_area(b.1, b.2)
            &&& exists|i: int|
                0 <= i < queries.len() && #[trigger] queries[i].1 == QUERY_SUCCESS && b == (
                    queries[i].0,
                    queries[i].2,
                    queries[i].3,
                ) && forall|j: int|
                    0 <= j < i && #[trigger] queries[j].1 == QUERY_SUCCESS ==> mode_area(
                        queries[j].2,
                        queries[j].3,
                    ) < mode_area(b.1, b.2)
        },
    decreases queries.len(),
{
    if queries.len() > 0 {
        let p = queries.drop_last();
        lemma_largest_mode(p);
        let n = queries.len() - 1;
        let prev = largest_mode(p);
        let q = queries.last();
        assert(queries[n] == q);
        assert forall|i: int| 0 <= i < n implies #[trigger] queries[i] == p[i] by {}
        if q.1 == QUERY_SUCCESS && larger_than(q.2, q.3, prev) {
            let b = (q.0, q.2, q.3);
            assert forall|j: int|
                0 <= j < n && #[trigger] queries[j].1 == QUERY_SUCCESS implies mode_area(
                queries[j].2,
                queries[j].3,
            ) < mode_area(b.1, b.2) by {
                assert(p[j] == queries[j]);
                assert(p[j].1 == QUERY_SUCCESS);
            }
            assert forall|i: int|
                0 <= i < queries.len() && #[trigger] queries[i].1 == QUERY_SUCCESS implies mode_area(
                queries[i].2,
                queries[i].3,
            ) <= mode_area(b.1, b.2) by {
                if i < n {
                    assert(p[i] == queries[i]);
                }
            }
        } else {
            match prev {
                None => {
                    assert(q.1 != QUERY_SUCCESS);
                    assert forall|i: int| 0 <= i < queries.len() implies #[trigger] queries[i].1
                        != QUERY_SUCCESS by {
                        if i < n {
                            assert(p[i] == queries[i]);
                        }
                    }
                },
                Some(b) => {
                    let w = choose|i: int|
                        0 <= i < p.len() && #[trigger] p[i].1 == QUERY_SUCCESS && b == (
                            p[i].0,
                            p[i].2,
                            p[i].3,
                        ) && forall|j: int|
                            0 <= j < i && #[trigger] p[j].1 == QUERY_SUCCESS ==> mode_area(
                                p[j].2,
                                p[j].3,
                            ) < mode_area(b.1, b.2);
                    assert(queries[w] == p[w]);
                    assert forall|j: int|
                        0 <= j < w && #[trigger] queries[j].1 == QUERY_SUCCESS implies mode_area(
                        queries[j].2,
                        queries[j].3,
                    ) < mode_area(b.1, b.2) by {
                        assert(p[j] == queries[j]);
                        assert(p[j].1 == QUERY_SUCCESS);
                    }
                    assert forall|i: int|
                        0 <= i < queries.len() && #[trigger] queries[i].1 == QUERY_SUCCESS
                            implies mode_area(queries[i].2, queries[i].3) <= mode_area(
                        b.1,
                        b.2,
                    ) by {
                        if i < n {
                            assert(p[i] == queries[i]);
                            assert(p[i].1 == QUERY_SUCCESS);
                        }
                    }
                    assert(queries[w].1 == QUERY_SUCCESS);
                },
            }
        }
    }
}

/// What the caller does after a poll of the keyboard.
pub enum PollStep {
    /// Echo this character to the console, then poll again.
    Echo { ch: u16 },
    /// Pause `POLL_INTERVAL_MICROSECONDS`, then poll again.
    Wait,
    /// Go on to leave boot services.
    Continue,
}

/// Progress of the keyboard poll, as its view shows it.
pub struct InputPollView {
    /// Polls that found no key while no key had been read.
    pub idle_polls: nat,
    /// Whether a key has been read.
    pub key_seen: bool,
}

/// Progress of the keyboard poll.
pub struct InputPoll {
    idle_polls: u32,
    key_seen: bool,
}

impl InputPoll {
    pub closed spec fn view(&self) -> InputPollView {
        InputPollView { idle_polls: self.idle_polls as nat, key_seen: self.key_seen }
    }

    /// The idle count stays below the limit, and stops once a key is read.
    pub open spec fn wf(&self) -> bool {
        self@.idle_polls < IDLE_POLL_LIMIT
    }

    /// Before the first poll.
    pub fn new() -> (poll: InputPoll)
        ensures
            poll.wf(),
            poll@ == (InputPollView { idle_polls: 0, key_seen: false }),
    {
        InputPoll { idle_polls: 0, key_seen: false }
    }

    /// A key was read with character `unicode_char` (0 for a key without one): Enter
    /// continues, another character is echoed, a key without a character is passed over.
    pub fn key_pressed(&mut self, unicode_char: u16) -> (step: PollStep)
        requires
            old(self).wf(),
        ensures
            final(self).wf(),
            final(self)@ == (InputPollView { key_seen: true, ..old(self)@ }),
            step == if unicode_char == ENTER {
                PollStep::Continue
            } else if unicode_char == 0 {
                PollStep::Wait
            } else {
                PollStep::Echo { ch: unicode_char }
            },
    {
        self.key_seen = true;
        if unicode_char == ENTER {
            PollStep::Continue
        } else if unicode_char == 0 {
            PollStep::Wait
        } else {
            PollStep::Echo { ch: unicode_char }
        }
    }

    /// A poll found no key. Before any key was read this counts toward the idle window,
    /// and the runtime starts once `IDLE_POLL_LIMIT` such polls are done; after a key,
    /// only Enter continues.
    pub fn no_key(&mut self) -> (step: PollStep)
        requires
            old(self).wf(),
        ensures
            final(self).wf(),
            final(self)@.key_seen == old(self)@.key_seen,
            old(self)@.key_seen ==> step is Wait && final(self)@ == old(self)@,
            !old(self)@.key_seen ==> {
                if old(self)@.idle_polls + 1 >= IDLE_POLL_LIMIT {
                    step is Continue && final(self)@ == old(self)@
                } else {
                    step is Wait && final(self)@.idle_polls == old(self)@.idle_polls + 1
                }
            },
    {
        if self.key_seen {
            return PollStep::Wait;
        }
        if self.idle_polls + 1 >= IDLE_POLL_LIMIT {
            PollStep::Continue
        } else {
            self.idle_polls = self.idle_polls + 1;
            PollStep::Wait
        }
    }
}

} // verus!
