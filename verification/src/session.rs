//! The conversation that leads to one file and one operation on it, as a
//! machine: it is told what happened and says what is to be done next.

use vstd::prelude::*;
use crate::commands::{command_named, command_of, Command};
use crate::config::{texts, Config};
use crate::prompt::{acceptable, ask_for, trimmed, trimmed_chars};
use crate::query::{resolve_values, resolved, FileQuery};
use crate::text::{chars_of, same_chars, string_of};
use crate::tree::copy_names;

verus! {

/// Where the conversation stands.
#[derive(Clone, Copy, Debug, PartialEq, Eq, Structural)]
pub enum Stage {
    /// Nothing was asked yet.
    Start,
    /// The value of a level was asked for: the first level without a value.
    Level,
    /// The entry to append was asked for.
    Word,
    /// Whether the file to create is there already was asked.
    Probe,
    /// An operation was handed out and is not reported done.
    Acting,
    /// Whether to go on was asked.
    Continue,
    /// The conversation is over.
    Finished,
}

/// The state of the conversation.
pub struct Session {
    /// Where it stands.
    pub stage: Stage,
    /// The values that the levels have so far, from the first level on.
    pub values: Vec<String>,
    /// The entry that was given in this round, if one was asked for.
    pub word: Option<String>,
}

/// What happened.
#[derive(Debug, PartialEq, Eq)]
pub enum Event {
    /// The conversation is to begin.
    Begin,
    /// This line came back for the last question, line ending included.
    Line(String),
    /// Whether the file that was asked about is there.
    Exists(bool),
    /// The operation that was handed out was carried out, or given up.
    Done,
}

/// What is to be done next.
#[derive(Debug, PartialEq, Eq)]
pub enum Request {
    /// Ask for the value of this level, after saying that no such value is known
    /// if `again` is set, and hand in the line that comes back.
    AskLevel { level: usize, again: bool },
    /// Ask for the entry to append, and hand in the line that comes back.
    AskWord,
    /// Show the file at this path, and report when done.
    Read { path: Vec<String> },
    /// Append this entry to the file at this path, and report when done.
    Append { path: Vec<String>, entry: String },
    /// Say whether there is a file at this path.
    Probe { path: Vec<String> },
    /// Create an empty file at this path, and report when done.
    Create { path: Vec<String> },
    /// Say that the file exists already, write nothing, and report when done.
    AlreadyExists,
    /// Do nothing to the file, and report when done.
    Idle,
    /// Ask whether to go on, and hand in the line that comes back.
    AskContinue,
    /// Stop: the conversation is over.
    Stop,
    /// What was reported does not fit where the conversation stands; nothing has
    /// changed.
    Unexpected,
}

/// The state of the conversation as plain values.
pub struct SessionView {
    /// Where the conversation stands.
    pub stage: Stage,
    /// The values that the levels have so far.
    pub values: Seq<Seq<char>>,
    /// The entry given in this round.
    pub word: Option<Seq<char>>,
}

/// An event as plain values.
pub enum EventView {
    Begin,
    Line(Seq<char>),
    Exists(bool),
    Done,
}

/// A request as plain values.
pub enum RequestView {
    AskLevel { level: nat, again: bool },
    AskWord,
    Read { path: Seq<Seq<char>> },
    Append { path: Seq<Seq<char>>, entry: Seq<char> },
    Probe { path: Seq<Seq<char>> },
    Create { path: Seq<Seq<char>> },
    AlreadyExists,
    Idle,
    AskContinue,
    Stop,
    Unexpected,
}

impl View for Session {
    type V = SessionView;

    open spec fn view(&self) -> SessionView {
        SessionView {
            stage: self.stage,
            values: texts(self.values@),
            word: match self.word {
                Some(w) => Some(w@),
                None => None,
            },
        }
    }
}

impl View for Event {
    type V = EventView;

    open spec fn view(&self) -> EventView {
        match self {
            Event::Begin => EventView::Begin,
            Event::Line(l) => EventView::Line(l@),
            Event::Exists(b) => EventView::Exists(*b),
            Event::Done => EventView::Done,
        }
    }
}

impl View for Request {
    type V = RequestView;

    open spec fn view(&self) -> RequestView {
        match self {
            Request::AskLevel { level, again } => RequestView::AskLevel {
                level: *level as nat,
                again: *again,
            },
            Request::AskWord => RequestView::AskWord,
            Request::Read { path } => RequestView::Read { path: texts(path@) },
            Request::Append { path, entry } => RequestView::Append {
                path: texts(path@),
                entry: entry@,
            },
            Request::Probe { path } => RequestView::Probe { path: texts(path@) },
            Request::Create { path } => RequestView::Create { path: texts(path@) },
            Request::AlreadyExists => RequestView::AlreadyExists,
            Request::Idle => RequestView::Idle,
            Request::AskContinue => RequestView::AskContinue,
            Request::Stop => RequestView::Stop,
            Request::Unexpected => RequestView::Unexpected,
        }
    }
}

/// What a step leads to: the new state, the entry to append as the settings
/// then hold it, and the request.
pub struct Outcome {
    /// The state after the step.
    pub session: SessionView,
    /// The entry to append, as the settings hold it after the step.
    pub input_word: Seq<char>,
    /// What is to be done next.
    pub request: RequestView,
}

/// The values with those levels added that follow them and have a fixed value,
/// up to the first level that has none.
pub open spec fn fill_fixed(config: Config, values: Seq<Seq<char>>) -> Seq<Seq<char>>
    decreases config.keywords_fixed@.len() - values.len(),
{
    if values.len() < config.keywords_fixed@.len() && config.keywords_fixed@[values.len() as int]
        is Some {
        fill_fixed(config, values.push(config.keywords_fixed@[values.len() as int]->0@))
    } else {
        values
    }
}

/// The answers that a command takes for a level must be values of the tree,
/// unless the command creates a file.
pub open spec fn requires_valid(command: Command) -> bool {
    !(command is CreateFile)
}

/// What is to be done to the file once every level has its value.
pub open spec fn operate(
    config: Config,
    values: Seq<Seq<char>>,
    word: Option<Seq<char>>,
    input_word: Seq<char>,
) -> Outcome {
    let path = resolved(values, config.extension@);
    match command_named(config.command@) {
        Command::ReadFile => Outcome {
            session: SessionView { stage: Stage::Acting, values, word },
            input_word,
            request: RequestView::Read { path },
        },
        Command::AddWord => Outcome {
            session: SessionView { stage: Stage::Acting, values, word },
            input_word,
            request: RequestView::Append { path, entry: input_word },
        },
        Command::CreateFile => Outcome {
            session: SessionView { stage: Stage::Probe, values, word },
            input_word,
            request: RequestView::Probe { path },
        },
        _ => Outcome {
            session: SessionView { stage: Stage::Acting, values, word },
            input_word,
            request: RequestView::Idle,
        },
    }
}

/// What follows once `values` hold every value that is known: the question for
/// the first level without one; with all levels known, the question for the
/// entry where the command appends; else the operation.
pub open spec fn after_values(config: Config, values: Seq<Seq<char>>) -> Outcome {
    if values.len() < config.hierarchy_names@.len() {
        Outcome {
            session: SessionView { stage: Stage::Level, values, word: None },
            input_word: config.input_word@,
            request: RequestView::AskLevel { level: values.len(), again: false },
        }
    } else if command_named(config.command@) is AddWord {
        Outcome {
            session: SessionView { stage: Stage::Word, values, word: None },
            input_word: config.input_word@,
            request: RequestView::AskWord,
        }
    } else {
        operate(config, values, None, config.input_word@)
    }
}

/// The start of a round: the fixed values are taken, and the rest follows.
pub open spec fn round(config: Config) -> Outcome {
    after_values(config, fill_fixed(config, Seq::empty()))
}

/// The end of the conversation.
pub open spec fn finish(config: Config, session: SessionView) -> Outcome {
    Outcome {
        session: SessionView { stage: Stage::Finished, values: session.values, word: session.word },
        input_word: config.input_word@,
        request: RequestView::Stop,
    }
}

/// The state with another stage, and a request.
pub open spec fn move_to(
    config: Config,
    session: SessionView,
    stage: Stage,
    request: RequestView,
) -> Outcome {
    Outcome {
        session: SessionView { stage, values: session.values, word: session.word },
        input_word: config.input_word@,
        request,
    }
}

/// One step of the conversation.
///
/// * At the start, nothing is asked if the settings say so; else a round
///   begins.
/// * A line for a level is trimmed. If it is acceptable it becomes the value
///   of that level, and the round goes on behind it; if not, the same level is
///   asked for again and nothing else changes.
/// * A line for the entry is trimmed and becomes the entry to append.
/// * A file that is to be created and is there already is reported and not
///   written; one that is not there is created.
/// * After the operation comes the question whether to go on; the answer `n`
///   ends the conversation, any other begins a new round.
/// * Anything else does not fit and changes nothing.
pub open spec fn step(config: Config, session: SessionView, event: EventView) -> Outcome {
    match (session.stage, event) {
        (Stage::Start, EventView::Begin) => if config.ask_input {
            round(config)
        } else {
            finish(config, session)
        },
        (Stage::Level, EventView::Line(line)) => if acceptable(
            texts(config.keywords@[session.values.len() as int]@),
            trimmed(line),
            requires_valid(command_named(config.command@)),
        ) {
            after_values(config, fill_fixed(config, session.values.push(trimmed(line))))
        } else {
            move_to(
                config,
                session,
                Stage::Level,
                RequestView::AskLevel { level: session.values.len(), again: true },
            )
        },
        (Stage::Word, EventView::Line(line)) => operate(
            config,
            session.values,
            Some(trimmed(line)),
            trimmed(line),
        ),
        (Stage::Probe, EventView::Exists(there)) => if there {
            move_to(config, session, Stage::Acting, RequestView::AlreadyExists)
        } else {
            move_to(
                config,
                session,
                Stage::Acting,
                RequestView::Create { path: resolved(session.values, config.extension@) },
            )
        },
        (Stage::Acting, EventView::Done) => move_to(
            config,
            session,
            Stage::Continue,
            RequestView::AskContinue,
        ),
        (Stage::Continue, EventView::Line(line)) => if trimmed(line) == "n"@ {
            finish(config, session)
        } else {
            round(config)
        },
        (Stage::Finished, _) => finish(config, session),
        _ => move_to(config, session, session.stage, RequestView::Unexpected),
    }
}

impl Session {
    /// The state fits the settings: while a level is asked for, that level is
    /// there and has no fixed value; while an entry is asked for or a file
    /// worked on, every level has its value.
    pub open spec fn wf(&self, config: Config) -> bool {
        match self.stage {
            Stage::Level => self.values@.len() < config.hierarchy_names@.len(),
            Stage::Word | Stage::Probe | Stage::Acting => self.values@.len()
                == config.hierarchy_names@.len(),
            _ => true,
        }
    }

    /// The query that the values chosen so far make up.
    pub fn query(&self) -> (query: FileQuery)
        ensures
            query.values@ == self.values@,
            query.name == self.word,
    {
        FileQuery {
            values: copy_names(&self.values),
            name: match &self.word {
                Some(w) => Some(w.clone()),
                None => None,
            },
        }
    }

    /// A conversation that has not begun.
    pub fn new() -> (session: Session)
        ensures
            session.stage is Start,
            session.values@.len() == 0,
            session.word is None,
            forall|config: Config| session.wf(config),
    {
        Session { stage: Stage::Start, values: Vec::new(), word: None }
    }
}

/// Adds to `values` the fixed values of the levels that follow them, up to the
/// first level that has none.
fn take_fixed(config: &Config, values: &mut Vec<String>)
    requires
        config.wf(),
    ensures
        texts(final(values)@) == fill_fixed(*config, texts(old(values)@)),
        final(values)@.len() >= old(values)@.len(),
        old(values)@.len() <= config.hierarchy_names@.len() ==> final(values)@.len()
            <= config.hierarchy_names@.len(),
{
    loop
        invariant
            config.wf(),
            fill_fixed(*config, texts(values@)) == fill_fixed(*config, texts(old(values)@)),
            values@.len() >= old(values)@.len(),
            old(values)@.len() <= config.hierarchy_names@.len() ==> values@.len()
                <= config.hierarchy_names@.len(),
        decreases config.keywords_fixed@.len() - values@.len(),
    {
        let at: usize = values.len();
        if at >= config.keywords_fixed.len() {
            return;
        }
        match &config.keywords_fixed[at] {
            None => {
                return;
            },
            Some(v) => {
                let ghost before = values@;
                values.push(v.clone());
                proof {
                    assert(texts(values@) =~= texts(before).push(v@));
                }
            },
        }
    }
}

/// Hands out the operation on the file that the values of the session name.
fn start_operation(config: &Config, session: &mut Session) -> (request: Request)
    requires
        config.wf(),
        old(session).values@.len() == config.hierarchy_names@.len(),
    ensures
        ({
            let o = operate(*config, old(session)@.values, old(session)@.word, config.input_word@);
            final(session)@ == o.session && request@ == o.request
        }),
        final(session).wf(*config),
{
    let path = resolve_values(config, &session.values);
    match command_of(config.command.as_str()) {
        Command::ReadFile => {
            session.stage = Stage::Acting;
            Request::Read { path }
        },
        Command::AddWord => {
            session.stage = Stage::Acting;
            Request::Append { path, entry: config.input_word.clone() }
        },
        Command::CreateFile => {
            session.stage = Stage::Probe;
            Request::Probe { path }
        },
        _ => {
            session.stage = Stage::Acting;
            Request::Idle
        },
    }
}

/// Goes on once the session holds every value that is known.
fn go_on(config: &Config, session: &mut Session) -> (request: Request)
    requires
        config.wf(),
        old(session).values@.len() <= config.hierarchy_names@.len(),
    ensures
        ({
            let o = after_values(*config, old(session)@.values);
            final(session)@ == o.session && request@ == o.request
        }),
        final(session).wf(*config),
{
    session.word = None;
    if session.values.len() < config.hierarchy_names.len() {
        session.stage = Stage::Level;
        Request::AskLevel { level: session.values.len(), again: false }
    } else {
        match command_of(config.command.as_str()) {
            Command::AddWord => {
                session.stage = Stage::Word;
                Request::AskWord
            },
            _ => start_operation(config, session),
        }
    }
}

/// Begins a round.
fn begin_round(config: &Config, session: &mut Session) -> (request: Request)
    requires
        config.wf(),
    ensures
        ({
            let o = round(*config);
            final(session)@ == o.session && request@ == o.request
        }),
        final(session).wf(*config),
{
    session.values = Vec::new();
    proof {
        assert(texts(session.values@) =~= Seq::<Seq<char>>::empty());
    }
    take_fixed(config, &mut session.values);
    go_on(config, session)
}

/// Takes the conversation one step on: told what happened, it changes the
/// state, notes a new entry to append in the settings, and says what is to be
/// done next. No answer for a level is taken that is not acceptable.
pub fn handle_inputful_commands(config: &mut Config, session: &mut Session, event: Event) -> (request:
    Request)
    requires
        old(config).wf(),
        old(config).indexed(),
        old(session).wf(*old(config)),
    ensures
        ({
            let o = step(*old(config), old(session)@, event@);
            &&& final(session)@ == o.session
            &&& final(config).input_word@ == o.input_word
            &&& request@ == o.request
        }),
        *final(config) == (Config { input_word: final(config).input_word, ..*old(config) }),
        final(config).wf(),
        final(config).indexed(),
        final(session).wf(*final(config)),
{
    match session.stage {
        Stage::Start => match event {
            Event::Begin => {
                if config.ask_input {
                    begin_round(config, session)
                } else {
                    session.stage = Stage::Finished;
                    Request::Stop
                }
            },
            _ => Request::Unexpected,
        },
        Stage::Level => match event {
            Event::Line(line) => {
                let level: usize = session.values.len();
                let need_valid: bool = match command_of(config.command.as_str()) {
                    Command::CreateFile => false,
                    _ => true,
                };
                match ask_for(&config.keywords[level], need_valid, line.as_str()) {
                    Some(answer) => {
                        let ghost before = session.values@;
                        session.values.push(answer);
                        proof {
                            assert(texts(session.values@) =~= texts(before).push(trimmed(line@)));
                        }
                        take_fixed(config, &mut session.values);
                        go_on(config, session)
                    },
                    None => Request::AskLevel { level, again: true },
                }
            },
            _ => Request::Unexpected,
        },
        Stage::Word => match event {
            Event::Line(line) => {
                let answer = trimmed_chars(line.as_str());
                config.input_word = string_of(&answer);
                session.word = Some(string_of(&answer));
                start_operation(config, session)
            },
            _ => Request::Unexpected,
        },
        Stage::Probe => match event {
            Event::Exists(there) => {
                session.stage = Stage::Acting;
                if there {
                    Request::AlreadyExists
                } else {
                    Request::Create { path: resolve_values(config, &session.values) }
                }
            },
            _ => Request::Unexpected,
        },
        Stage::Acting => match event {
            Event::Done => {
                session.stage = Stage::Continue;
                Request::AskContinue
            },
            _ => Request::Unexpected,
        },
        Stage::Continue => match event {
            Event::Line(line) => {
                let answer = trimmed_chars(line.as_str());
                let no = chars_of("n");
                if same_chars(&answer, &no) {
                    session.stage = Stage::Finished;
                    Request::Stop
                } else {
                    begin_round(config, session)
                }
            },
            _ => Request::Unexpected,
        },
        Stage::Finished => Request::Stop,
    }
}

} // verus!
