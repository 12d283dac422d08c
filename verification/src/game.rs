//! The guessing game: one hidden number, one reply per line of input.
//!
//! A session holds a secret in `[1, 100]` and a status.  Each line of input
//! is read as a guess; a line that is no number quits the session, an equal
//! guess wins it, and any other guess leaves it waiting for the next line.

use vstd::prelude::*;

use crate::parse::{parse_guess, spec_parse_u32, trimmed};
use rand::Rng;

verus! {

/// What the game answers to one line of input.
#[derive(Clone, Copy, PartialEq, Eq, Structural, Debug)]
pub enum Reply {
    TooSmall,
    TooLarge,
    Win,
    Quit,
}

/// Where a session stands.
#[derive(Clone, Copy, PartialEq, Eq, Structural, Debug)]
pub enum Status {
    AwaitingInput,
    Won,
    Quit,
}

/// The reply that a guess earns against a secret: quit when the line was no
/// number, otherwise the comparison of the guess with the secret.
pub open spec fn decide(secret: int, parsed: Option<u32>) -> Reply {
    match parsed {
        Option::None => Reply::Quit,
        Option::Some(g) => if (g as int) < secret {
            Reply::TooSmall
        } else if (g as int) > secret {
            Reply::TooLarge
        } else {
            Reply::Win
        },
    }
}

/// Whether a reply ends the session.
pub open spec fn is_terminal(r: Reply) -> bool {
    r == Reply::Win || r == Reply::Quit
}

/// The status a session moves to after giving a reply.
pub open spec fn status_after(r: Reply) -> Status {
    match r {
        Reply::Win => Status::Won,
        Reply::Quit => Status::Quit,
        Reply::TooSmall => Status::AwaitingInput,
        Reply::TooLarge => Status::AwaitingInput,
    }
}

/// Draws the secret for a new session.
///
/// Relies on `rand::Rng::random_range` over the inclusive range `1..=100`:
/// the sample lies in the requested range, which is not empty, so the call
/// does not panic.  Nothing more is claimed of a random draw.
#[verifier::external_body]
fn draw_secret() -> (r: u32)
    ensures
        1 <= r <= 100,
{
    rand::rng().random_range(1u32..=100u32)
}

/// One run of the game: a secret in `[1, 100]` and the status reached so far.
pub struct Session {
    secret: u32,
    status: Status,
}

impl Session {
    /// The hidden number of this session.
    pub closed spec fn secret(self) -> int {
        self.secret as int
    }

    /// Where this session stands.
    pub closed spec fn status(self) -> Status {
        self.status
    }

    /// The secret is in range, whatever else has happened.
    pub open spec fn wf(self) -> bool {
        1 <= self.secret() <= 100
    }

    /// Begins a session around a given secret.
    pub fn with_secret(secret: u32) -> (s: Session)
        requires
            1 <= secret <= 100,
        ensures
            s.wf(),
            s.secret() == secret,
            s.status() == Status::AwaitingInput,
    {
        Session { secret, status: Status::AwaitingInput }
    }

    /// Begins a session around a freshly drawn secret.
    pub fn start() -> (s: Session)
        ensures
            s.wf(),
            s.status() == Status::AwaitingInput,
    {
        Session::with_secret(draw_secret())
    }

    /// The hidden number, revealed: the game announces it when it starts.
    pub fn secret_value(&self) -> (r: u32)
        ensures
            r == self.secret(),
    {
        self.secret
    }

    /// Whether the session has reached a terminal state.
    pub fn is_over(&self) -> (r: bool)
        ensures
            r == (self.status() != Status::AwaitingInput),
    {
        !matches!(self.status, Status::AwaitingInput)
    }

    /// Answers one parsed guess: too small, too large, or a win, which ends
    /// the session.
    pub fn guess(&mut self, g: u32) -> (r: Reply)
        requires
            old(self).wf(),
            old(self).status() == Status::AwaitingInput,
        ensures
            final(self).wf(),
            final(self).secret() == old(self).secret(),
            r == decide(old(self).secret(), Some(g)),
            final(self).status() == status_after(r),
    {
        if g < self.secret {
            Reply::TooSmall
        } else if g > self.secret {
            Reply::TooLarge
        } else {
            self.status = Status::Won;
            Reply::Win
        }
    }

    /// Ends the session on a line that was no number.
    pub fn quit(&mut self) -> (r: Reply)
        requires
            old(self).wf(),
        ensures
            final(self).wf(),
            final(self).secret() == old(self).secret(),
            r == Reply::Quit,
            final(self).status() == Status::Quit,
    {
        self.status = Status::Quit;
        Reply::Quit
    }

    /// Answers one line of input: reads it as a guess and replies as `decide`
    /// says, moving to the status that the reply dictates.
    pub fn step(&mut self, line: &str) -> (r: Reply)
        requires
            old(self).wf(),
            old(self).status() == Status::AwaitingInput,
        ensures
            final(self).wf(),
            final(self).secret() == old(self).secret(),
            r == decide(old(self).secret(), spec_parse_u32(trimmed(line@))),
            final(self).status() == status_after(r),
    {
        match parse_guess(line) {
            Option::None => self.quit(),
            Option::Some(g) => self.guess(g),
        }
    }
}

/// The replies a session gives to a script of input lines, one per line read,
/// stopping after the first terminal reply.
pub open spec fn script_replies(secret: int, lines: Seq<Seq<char>>) -> Seq<Reply>
    decreases lines.len(),
{
    if lines.len() == 0 {
        Seq::empty()
    } else {
        let r = decide(secret, spec_parse_u32(trimmed(lines[0])));
        if is_terminal(r) {
            seq![r]
        } else {
            seq![r] + script_replies(secret, lines.drop_first())
        }
    }
}

/// The views of a sequence of strings.
pub open spec fn string_views(lines: Seq<String>) -> Seq<Seq<char>> {
    lines.map_values(|s: String| s@)
}

/// Plays one session over a script of input lines: each line is answered in
/// turn until a reply ends the session or the script runs out, and the
/// replies are returned in order, one per line read.
pub fn play_script(secret: u32, lines: &Vec<String>) -> (replies: Vec<Reply>)
    requires
        1 <= secret <= 100,
    ensures
        replies@ == script_replies(secret as int, string_views(lines@)),
{
    let ghost all = string_views(lines@);
    let mut session = Session::with_secret(secret);
    let mut replies: Vec<Reply> = Vec::new();
    let mut i: usize = 0;
    let mut done = false;
    proof {
        assert(all.skip(0) =~= all);
        assert(Seq::<Reply>::empty() + script_replies(secret as int, all) =~= script_replies(
            secret as int,
            all,
        ));
    }
    while i < lines.len() && !done
        invariant
            i <= lines.len(),
            all == string_views(lines@),
            all.len() == lines.len(),
            session.wf(),
            session.secret() == secret,
            !done ==> session.status() == Status::AwaitingInput,
            script_replies(secret as int, all) == replies@ + (if done {
                Seq::<Reply>::empty()
            } else {
                script_replies(secret as int, all.skip(i as int))
            }),
        decreases lines.len() - i,
    {
        let ghost rest = all.skip(i as int);
        let r = session.step(lines[i].as_str());
        proof {
            assert(rest[0] == all[i as int]);
            assert(rest.drop_first() =~= all.skip(i + 1));
            assert(script_replies(secret as int, rest) == (if is_terminal(r) {
                seq![r]
            } else {
                seq![r] + script_replies(secret as int, all.skip(i + 1))
            }));
        }
        replies.push(r);
        if matches!(r, Reply::Win | Reply::Quit) {
            done = true;
            proof {
                assert(replies@ =~= replies@.drop_last() + seq![r]);
                assert(replies@ + Seq::<Reply>::empty() =~= replies@);
            }
        } else {
            proof {
                assert(replies@.drop_last() + (seq![r] + script_replies(
                    secret as int,
                    all.skip(i + 1),
                )) =~= replies@ + script_replies(secret as int, all.skip(i + 1)));
            }
        }
        i = i + 1;
    }
    proof {
        if !done {
            assert(all.skip(i as int).len() == 0);
            assert(replies@ + Seq::<Reply>::empty() =~= replies@);
        }
    }
    replies
}

/// A session answers one line per reply, in order: each reply is what
/// `decide` says of its line, no reply before the last ends the session, and
/// no more replies are given than lines were read.
pub proof fn lemma_one_reply_per_line(secret: int, lines: Seq<Seq<char>>)
    ensures
        script_replies(secret, lines).len() <= lines.len(),
        forall|j: int|
            0 <= j < script_replies(secret, lines).len() - 1 ==> !is_terminal(
                #[trigger] script_replies(secret, lines)[j],
            ),
        forall|j: int|
            0 <= j < script_replies(secret, lines).len() ==> #[trigger] script_replies(
                secret,
                lines,
            )[j] == decide(secret, spec_parse_u32(trimmed(lines[j]))),
    decreases lines.len(),
{
    if lines.len() > 0 {
        let r = decide(secret, spec_parse_u32(trimmed(lines[0])));
        if !is_terminal(r) {
            let rest = lines.drop_first();
            lemma_one_reply_per_line(secret, rest);
            let tail = script_replies(secret, rest);
            assert(script_replies(secret, lines) == seq![r] + tail);
            assert(forall|j: int|
                1 <= j < (seq![r] + tail).len() ==> #[trigger] (seq![r] + tail)[j] == tail[j - 1]);
            assert(forall|j: int| 1 <= j < lines.len() ==> #[trigger] rest[j - 1] == lines[j]);
        }
    }
}

/// A guess equal to the secret wins, and a win ends the session.
pub proof fn lemma_equal_guess_wins(secret: int, g: u32)
    requires
        1 <= secret <= 100,
        g == secret,
    ensures
        decide(secret, Some(g)) == Reply::Win,
        is_terminal(decide(secret, Some(g))),
        status_after(decide(secret, Some(g))) == Status::Won,
{
}

/// A guess below the secret is answered "too small" and the session goes on.
pub proof fn lemma_small_guess_continues(secret: int, g: u32)
    requires
        1 <= secret <= 100,
        (g as int) < secret,
    ensures
        decide(secret, Some(g)) == Reply::TooSmall,
        !is_terminal(decide(secret, Some(g))),
        status_after(decide(secret, Some(g))) == Status::AwaitingInput,
{
}

/// A guess above the secret is answered "too large" and the session goes on.
pub proof fn lemma_large_guess_continues(secret: int, g: u32)
    requires
        1 <= secret <= 100,
        (g as int) > secret,
    ensures
        decide(secret, Some(g)) == Reply::TooLarge,
        !is_terminal(decide(secret, Some(g))),
        status_after(decide(secret, Some(g))) == Status::AwaitingInput,
{
}

/// A line that is no number quits the session, whatever came before: every
/// session still awaiting input answers it with a quit, and stops.
pub proof fn lemma_unparsed_line_quits(secret: int, line: Seq<char>)
    requires
        1 <= secret <= 100,
        spec_parse_u32(trimmed(line)) is None,
    ensures
        decide(secret, spec_parse_u32(trimmed(line))) == Reply::Quit,
        is_terminal(decide(secret, spec_parse_u32(trimmed(line)))),
        status_after(decide(secret, spec_parse_u32(trimmed(line)))) == Status::Quit,
{
}

} // verus!
