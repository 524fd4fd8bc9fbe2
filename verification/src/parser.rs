//! The DSL parser: one line of text becomes at most one typed command, and a
//! queue of commands accumulates into a batch that closes at `send`.
//!
//! Grammar, per non-blank, non-comment line:
//! - `add <domain> <ttl> <type> [<priority>] <content>`
//! - `delete <domain> <type>`
//! - `send`
//!
//! Whether a priority is present is decided by the number of fields after the
//! directive, never by inspecting a field's content.  A line matching no
//! production fails the whole parse.

use vstd::prelude::*;

use crate::text::all_digits;
use crate::text::all_space;
use crate::text::dec_val;
use crate::text::join_lines;
use crate::text::join_from;
use crate::text::lemma_tokens_wf;
use crate::text::parse_usize;
use crate::text::split_into_lines;
use crate::text::split_lines;
use crate::text::str_all_space;
use crate::text::tokenize;
use crate::text::tokens_of;

verus! {

/// An `add` directive: create a record with these fields.
#[derive(Debug, PartialEq)]
pub struct NSUpdateActionAdd {
    pub domain: String,
    pub ttl: usize,
    pub record_type: String,
    pub priority: Option<usize>,
    pub content: String,
}

/// A `delete` directive: remove the record with this name and type.
#[derive(Debug, PartialEq)]
pub struct NSUpdateActionDelete {
    pub domain: String,
    pub record_type: String,
}

#[derive(Debug, PartialEq)]
pub enum NSUpdateAction {
    Add(NSUpdateActionAdd),
    Delete(NSUpdateActionDelete),
}

#[derive(Debug, PartialEq)]
pub enum NSUpdateCommand {
    Update(NSUpdateAction),
    Send,
}

/// Mathematical image of an `add` action.
#[verifier::ext_equal]
pub struct AddV {
    pub domain: Seq<char>,
    pub ttl: int,
    pub record_type: Seq<char>,
    pub priority: Option<int>,
    pub content: Seq<char>,
}

/// Mathematical image of a `delete` action.
#[verifier::ext_equal]
pub struct DeleteV {
    pub domain: Seq<char>,
    pub record_type: Seq<char>,
}

#[verifier::ext_equal]
pub enum ActionV {
    Add(AddV),
    Delete(DeleteV),
}

#[verifier::ext_equal]
pub enum CommandV {
    Update(ActionV),
    Send,
}

impl View for NSUpdateActionAdd {
    type V = AddV;

    open spec fn view(&self) -> AddV {
        AddV {
            domain: self.domain@,
            ttl: self.ttl as int,
            record_type: self.record_type@,
            priority: match self.priority {
                Some(p) => Some(p as int),
                None => None,
            },
            content: self.content@,
        }
    }
}

impl View for NSUpdateActionDelete {
    type V = DeleteV;

    open spec fn view(&self) -> DeleteV {
        DeleteV { domain: self.domain@, record_type: self.record_type@ }
    }
}

impl View for NSUpdateAction {
    type V = ActionV;

    open spec fn view(&self) -> ActionV {
        match self {
            NSUpdateAction::Add(a) => ActionV::Add(a@),
            NSUpdateAction::Delete(d) => ActionV::Delete(d@),
        }
    }
}

impl View for NSUpdateCommand {
    type V = CommandV;

    open spec fn view(&self) -> CommandV {
        match self {
            NSUpdateCommand::Update(a) => CommandV::Update(a@),
            NSUpdateCommand::Send => CommandV::Send,
        }
    }
}

impl DeepView for NSUpdateCommand {
    type V = CommandV;

    open spec fn deep_view(&self) -> CommandV {
        self@
    }
}

/// What kind of line rejected the parse.
#[derive(Clone, Copy, Debug, PartialEq, Eq, Structural)]
pub enum ParseErrorKind {
    /// The line matches no production of the grammar.
    Malformed,
    /// A `ttl` or `priority` field is not a decimal number that fits.
    BadNumber,
}

/// A malformed DSL line; the whole parse is aborted.  `line` is the index of
/// the offending line in the parsed text, `token` the index of the offending
/// field within the line (0 when the line as a whole matches no production).
#[derive(Clone, Copy, Debug, PartialEq, Eq, Structural)]
pub struct ParseError {
    pub line: usize,
    pub token: usize,
    pub kind: ParseErrorKind,
}

/// A digit string whose value a `usize` can hold.
pub open spec fn usize_digits(t: Seq<char>) -> bool {
    all_digits(t) && dec_val(t) <= usize::MAX
}

/// The grammar of an `add` line, given its tokens.
pub open spec fn parse_add_tokens(toks: Seq<Seq<char>>) -> Result<
    Option<CommandV>,
    (ParseErrorKind, int),
> {
    if toks.len() == 5 {
        if usize_digits(toks[2]) {
            Ok(
                Some(
                    CommandV::Update(
                        ActionV::Add(
                            AddV {
                                domain: toks[1],
                                ttl: dec_val(toks[2]) as int,
                                record_type: toks[3],
                                priority: None,
                                content: toks[4],
                            },
                        ),
                    ),
                ),
            )
        } else {
            Err((ParseErrorKind::BadNumber, 2))
        }
    } else if toks.len() == 6 {
        if !usize_digits(toks[2]) {
            Err((ParseErrorKind::BadNumber, 2))
        } else if !usize_digits(toks[4]) {
            Err((ParseErrorKind::BadNumber, 4))
        } else {
            Ok(
                Some(
                    CommandV::Update(
                        ActionV::Add(
                            AddV {
                                domain: toks[1],
                                ttl: dec_val(toks[2]) as int,
                                record_type: toks[3],
                                priority: Some(dec_val(toks[4]) as int),
                                content: toks[5],
                            },
                        ),
                    ),
                ),
            )
        }
    } else {
        Err((ParseErrorKind::Malformed, 0))
    }
}

/// The grammar of one line, given its tokens: no tokens or a comment yield no
/// command, `send` closes the batch, `add`/`delete` yield an update.
pub open spec fn parse_tokens(toks: Seq<Seq<char>>) -> Result<
    Option<CommandV>,
    (ParseErrorKind, int),
> {
    if toks.len() == 0 {
        Ok(None)
    } else if toks[0].len() > 0 && toks[0][0] == '#' {
        Ok(None)
    } else if toks[0] == "send"@ {
        if toks.len() == 1 {
            Ok(Some(CommandV::Send))
        } else {
            Err((ParseErrorKind::Malformed, 0))
        }
    } else if toks[0] == "add"@ {
        parse_add_tokens(toks)
    } else if toks[0] == "delete"@ {
        if toks.len() == 3 {
            Ok(
                Some(
                    CommandV::Update(
                        ActionV::Delete(DeleteV { domain: toks[1], record_type: toks[2] }),
                    ),
                ),
            )
        } else {
            Err((ParseErrorKind::Malformed, 0))
        }
    } else {
        Err((ParseErrorKind::Malformed, 0))
    }
}

/// The grammar of one raw line of text.
pub open spec fn parse_line(line: Seq<char>) -> Result<Option<CommandV>, (ParseErrorKind, int)> {
    parse_tokens(tokens_of(line))
}

/// Mathematical image of a batch under construction.
#[verifier::ext_equal]
pub struct QueueV {
    pub commands: Seq<CommandV>,
    pub send: bool,
}

/// How one parsed line changes the batch: nothing, or an appended command,
/// with the batch closing the instant that command is `send`.
pub open spec fn apply_command(q: QueueV, c: Option<CommandV>) -> QueueV {
    match c {
        None => q,
        Some(cmd) => QueueV { commands: q.commands.push(cmd), send: q.send || cmd is Send },
    }
}

/// The batch builder: commands parsed so far, and whether a `send` closed it.
#[derive(Debug)]
pub struct NSUpdateQueue {
    inner: Vec<NSUpdateCommand>,
    send: bool,
}

impl View for NSUpdateQueue {
    type V = QueueV;

    closed spec fn view(&self) -> QueueV {
        QueueV { commands: self.inner.deep_view(), send: self.send }
    }
}

impl NSUpdateQueue {
    /// A fresh, open, empty batch.
    pub fn new() -> (q: Self)
        ensures
            q@.commands == Seq::<CommandV>::empty(),
            !q@.send,
    {
        let q = NSUpdateQueue { inner: Vec::new(), send: false };
        proof {
            assert(q.inner.deep_view() =~= Seq::<CommandV>::empty());
        }
        q
    }

    fn push(&mut self, command: NSUpdateCommand)
        ensures
            final(self)@.commands == old(self)@.commands.push(command@),
            final(self)@.send == old(self)@.send,
    {
        let ghost old_deep = self.inner.deep_view();
        self.inner.push(command);
        proof {
            assert(self.inner.deep_view() =~= old_deep.push(self.inner@.last().deep_view()));
        }
    }

    fn set_send(&mut self)
        ensures
            final(self)@.commands == old(self)@.commands,
            final(self)@.send,
    {
        self.send = true;
    }

    /// Whether the batch has been closed by a `send` command.
    pub fn has_send(&self) -> (r: bool)
        ensures
            r == self@.send,
    {
        self.send
    }

    /// Gives up the batch's commands, in the order they were parsed.
    pub fn into_inner(self) -> (r: Vec<NSUpdateCommand>)
        ensures
            r.deep_view() == self@.commands,
    {
        self.inner
    }

    /// How many commands the batch holds.
    pub fn len(&self) -> (r: usize)
        ensures
            r == self@.commands.len(),
    {
        self.inner.len()
    }

    /// Parses one line and applies its command, if any, to the batch.  The
    /// reported error position has `line == 0`: this function does not know
    /// where in a larger text its input stood.
    pub fn parse_command(&mut self, input: &str) -> (r: Result<(), ParseError>)
        ensures
            match parse_line(input@) {
                Ok(c) => r is Ok && final(self)@ == apply_command(old(self)@, c),
                Err(e) => r matches Err(pe) && pe.kind == e.0 && pe.token == e.1 && pe.line == 0
                    && final(self)@ == old(self)@,
            },
    {
        let toks = tokenize(input);
        let ghost tv = tokens_of(input@);
        if toks.len() == 0 {
            return Ok(());
        }
        proof {
            lemma_tokens_wf(input@);
            assert(toks[0].deep_view() == tv[0]);
        }
        let c0 = toks[0].as_str().get_char(0);
        if c0 == '#' {
            return Ok(());
        }
        let kw_send: String = "send".to_owned();
        let kw_add: String = "add".to_owned();
        let kw_delete: String = "delete".to_owned();
        if toks[0] == kw_send {
            if toks.len() == 1 {
                self.push(NSUpdateCommand::Send);
                self.set_send();
                proof {
                    assert(final(self)@ =~= apply_command(old(self)@, Some(CommandV::Send)));
                }
                Ok(())
            } else {
                Err(ParseError { line: 0, token: 0, kind: ParseErrorKind::Malformed })
            }
        } else if toks[0] == kw_add {
            self.parse_add(&toks)
        } else if toks[0] == kw_delete {
            if toks.len() == 3 {
                proof {
                    assert(toks[1].deep_view() == tv[1]);
                    assert(toks[2].deep_view() == tv[2]);
                }
                let action = NSUpdateActionDelete {
                    domain: toks[1].clone(),
                    record_type: toks[2].clone(),
                };
                self.push(NSUpdateCommand::Update(NSUpdateAction::Delete(action)));
                proof {
                    assert(final(self)@ =~= apply_command(old(self)@, parse_tokens(tv)->Ok_0));
                }
                Ok(())
            } else {
                Err(ParseError { line: 0, token: 0, kind: ParseErrorKind::Malformed })
            }
        } else {
            Err(ParseError { line: 0, token: 0, kind: ParseErrorKind::Malformed })
        }
    }

    /// The `add` productions: `domain ttl type content` and
    /// `domain ttl type priority content`.
    fn parse_add(&mut self, toks: &Vec<String>) -> (r: Result<(), ParseError>)
        requires
            toks@.len() > 0,
        ensures
            match parse_add_tokens(toks.deep_view()) {
                Ok(c) => r is Ok && final(self)@ == apply_command(old(self)@, c),
                Err(e) => r matches Err(pe) && pe.kind == e.0 && pe.token == e.1 && pe.line == 0
                    && final(self)@ == old(self)@,
            },
    {
        let ghost tv = toks.deep_view();
        if toks.len() != 5 && toks.len() != 6 {
            return Err(ParseError { line: 0, token: 0, kind: ParseErrorKind::Malformed });
        }
        proof {
            assert(toks[1].deep_view() == tv[1]);
            assert(toks[2].deep_view() == tv[2]);
            assert(toks[3].deep_view() == tv[3]);
            assert(toks[4].deep_view() == tv[4]);
        }
        let ttl = match parse_usize(toks[2].as_str()) {
            Some(v) => v,
            None => {
                return Err(ParseError { line: 0, token: 2, kind: ParseErrorKind::BadNumber });
            },
        };
        if toks.len() == 5 {
            let action = NSUpdateActionAdd {
                domain: toks[1].clone(),
                ttl,
                record_type: toks[3].clone(),
                priority: None,
                content: toks[4].clone(),
            };
            self.push(NSUpdateCommand::Update(NSUpdateAction::Add(action)));
            proof {
                assert(final(self)@ =~= apply_command(old(self)@, parse_add_tokens(tv)->Ok_0));
            }
            Ok(())
        } else {
            proof {
                assert(toks[5].deep_view() == tv[5]);
            }
            let priority = match parse_usize(toks[4].as_str()) {
                Some(v) => v,
                None => {
                    return Err(ParseError { line: 0, token: 4, kind: ParseErrorKind::BadNumber });
                },
            };
            let action = NSUpdateActionAdd {
                domain: toks[1].clone(),
                ttl,
                record_type: toks[3].clone(),
                priority: Some(priority),
                content: toks[5].clone(),
            };
            self.push(NSUpdateCommand::Update(NSUpdateAction::Add(action)));
            proof {
                assert(final(self)@ =~= apply_command(old(self)@, parse_add_tokens(tv)->Ok_0));
            }
            Ok(())
        }
    }
}

/// Where and why a multi-line parse stopped: the offending line and token,
/// the error kind, and the batch as it stood when the error was met.
#[verifier::ext_equal]
pub struct RunErrV {
    pub line: int,
    pub token: int,
    pub kind: ParseErrorKind,
    pub state: QueueV,
}

/// Feeding lines to a batch, in order, until the batch closes, the lines run
/// out, or a line fails to parse.  Returns the batch and the unconsumed lines.
pub open spec fn run_lines(q: QueueV, lines: Seq<Seq<char>>, base: int) -> Result<
    (QueueV, Seq<Seq<char>>),
    RunErrV,
>
    decreases lines.len(),
{
    if q.send || lines.len() == 0 {
        Ok((q, lines))
    } else {
        match parse_line(lines[0]) {
            Err(e) => Err(RunErrV { line: base, token: e.1, kind: e.0, state: q }),
            Ok(c) => run_lines(apply_command(q, c), lines.drop_first(), base + 1),
        }
    }
}

impl NSUpdateQueue {
    /// Splits the input into lines and feeds them to the batch until a `send`
    /// closes it or the input runs out.  Returns the unconsumed trailing text,
    /// rejoined with `'\n'`; `None` when nothing remains or the remainder is
    /// empty after trimming.
    pub fn parse_text(&mut self, input: &str) -> (r: Result<Option<String>, ParseError>)
        ensures
            match run_lines(old(self)@, split_lines(input@), 0) {
                Ok((q2, rem)) => final(self)@ == q2 && match r {
                    Ok(Some(s)) => !all_space(join_lines(rem)) && s@ == join_lines(rem),
                    Ok(None) => all_space(join_lines(rem)),
                    Err(_) => false,
                },
                Err(e) => r matches Err(pe) && pe.line == e.line && pe.token == e.token && pe.kind
                    == e.kind && final(self)@ == e.state,
            },
    {
        let lines = split_into_lines(input);
        let ghost all = split_lines(input@);
        proof {
            assert(all.skip(0) =~= all);
        }
        let mut i: usize = 0;
        let n_lines = lines.len();
        let mut closed = self.has_send();
        while i < n_lines && !closed
            invariant
                all == split_lines(input@),
                closed == self@.send,
                n_lines == lines@.len(),
                lines.deep_view() == split_lines(input@),
                split_lines(input@).len() == lines@.len(),
                i <= lines@.len(),
                run_lines(old(self)@, split_lines(input@), 0) == run_lines(
                    self@,
                    split_lines(input@).skip(i as int),
                    i as int,
                ),
            decreases lines@.len() - i,
        {
            proof {
                assert(all.skip(i as int)[0] == lines.deep_view()[i as int]);
            }
            match self.parse_command(lines[i].as_str()) {
                Err(e) => {
                    return Err(ParseError { line: i, token: e.token, kind: e.kind });
                },
                Ok(()) => {
                    proof {
                        assert(all.skip(i as int).drop_first() =~= all.skip(i + 1));
                    }
                    i = i + 1;
                    closed = self.has_send();
                },
            }
        }
        proof {
            if i < lines@.len() {
                assert(self@.send);
            } else {
                assert(all.skip(i as int).len() == 0);
            }
            assert(run_lines(self@, all.skip(i as int), i as int) == Ok::<
                (QueueV, Seq<Seq<char>>),
                RunErrV,
            >((self@, all.skip(i as int))));
        }
        let remaining = join_from(&lines, i);
        if str_all_space(remaining.as_str()) {
            Ok(None)
        } else {
            Ok(Some(remaining))
        }
    }
}

/// Law: when parsing closed the batch, the batch's last command is `send`,
/// and the unconsumed lines are exactly those after the closing `send` line.
pub proof fn lemma_batch_closes_at_send(q: QueueV, lines: Seq<Seq<char>>, base: int)
    requires
        !q.send,
        run_lines(q, lines, base) is Ok,
        (run_lines(q, lines, base)->Ok_0).0.send,
    ensures
        ({
            let (q2, rem) = run_lines(q, lines, base)->Ok_0;
            &&& q2.commands.len() > 0
            &&& q2.commands.last() == CommandV::Send
            &&& exists|k: int|
                0 < k <= lines.len() && rem == lines.skip(k) && parse_line(lines[k - 1]) == Ok::<
                    Option<CommandV>,
                    (ParseErrorKind, int),
                >(Some(CommandV::Send))
        }),
    decreases lines.len(),
{
    let (q2, rem) = run_lines(q, lines, base)->Ok_0;
    let c = parse_line(lines[0])->Ok_0;
    let q1 = apply_command(q, c);
    if q1.send {
        assert(c == Some(CommandV::Send));
        assert(run_lines(q1, lines.drop_first(), base + 1) == Ok::<
            (QueueV, Seq<Seq<char>>),
            RunErrV,
        >((q1, lines.drop_first())));
        assert(rem == lines.skip(1));
        assert(0 < 1 <= lines.len() && rem == lines.skip(1) && parse_line(lines[1 - 1]) == Ok::<
            Option<CommandV>,
            (ParseErrorKind, int),
        >(Some(CommandV::Send)));
    } else {
        lemma_batch_closes_at_send(q1, lines.drop_first(), base + 1);
        let k0 = choose|k0: int|
            0 < k0 <= lines.drop_first().len() && rem == lines.drop_first().skip(k0) && parse_line(
                lines.drop_first()[k0 - 1],
            ) == Ok::<Option<CommandV>, (ParseErrorKind, int)>(Some(CommandV::Send));
        assert(lines.drop_first().skip(k0) =~= lines.skip(k0 + 1));
        assert(lines.drop_first()[k0 - 1] == lines[k0]);
        assert(0 < k0 + 1 <= lines.len() && rem == lines.skip(k0 + 1) && parse_line(
            lines[(k0 + 1) - 1],
        ) == Ok::<Option<CommandV>, (ParseErrorKind, int)>(Some(CommandV::Send)));
    }
}

/// Law: text without any `send` line leaves the batch open and consumes
/// everything, so nothing remains for a further batch.
pub proof fn lemma_no_send_consumes_all(q: QueueV, lines: Seq<Seq<char>>, base: int)
    requires
        !q.send,
        forall|i: int|
            0 <= i < lines.len() ==> parse_line(#[trigger] lines[i]) != Ok::<
                Option<CommandV>,
                (ParseErrorKind, int),
            >(Some(CommandV::Send)),
        run_lines(q, lines, base) is Ok,
    ensures
        !(run_lines(q, lines, base)->Ok_0).0.send,
        (run_lines(q, lines, base)->Ok_0).1 == Seq::<Seq<char>>::empty(),
    decreases lines.len(),
{
    if lines.len() == 0 {
        assert(lines =~= Seq::<Seq<char>>::empty());
    } else {
        let c = parse_line(lines[0])->Ok_0;
        let q1 = apply_command(q, c);
        assert(c != Some(CommandV::Send));
        assert(!q1.send);
        assert(forall|i: int|
            0 <= i < lines.drop_first().len() ==> #[trigger] lines.drop_first()[i] == lines[i
                + 1]);
        lemma_no_send_consumes_all(q1, lines.drop_first(), base + 1);
    }
}

} // verus!
