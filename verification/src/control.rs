//! The decisions of the control channel: what a message on the TCP
//! connection asks for, what the connection does next, and how often a
//! status image is tried.

use vstd::prelude::*;
use vstd::string::*;
use crate::codec::{base64_decoding, decode_base64, decode_image};
use crate::device::DeviceInfo;
use crate::error::Error;
use crate::macro_deck::MacroDeck;
use crate::models::{bytes_of, text_bytes, ButtonConfig, Config};
use crate::ports::copy_texts;
use crate::protocol::{
    is_shown, law_same_status_twice_is_sent_once, run, succeeded, DeckState, Event, EventView,
    Step, StepView, Turn,
};
use crate::raster::{Image, Pixels};

verus! {

/// How often a status image is tried before it is given up.
pub const MAX_TRIES: u32 = 5;

/// The value of a message, as far as the channel looks at it.
#[derive(Debug)]
pub enum Payload {
    /// No value, or null.
    Absent,
    /// A string.
    Text(String),
    /// Anything else.
    Other,
}

pub enum PayloadView {
    Absent,
    Text(Seq<char>),
    Other,
}

impl View for Payload {
    type V = PayloadView;

    open spec fn view(&self) -> PayloadView {
        match *self {
            Payload::Absent => PayloadView::Absent,
            Payload::Text(text) => PayloadView::Text(text@),
            Payload::Other => PayloadView::Other,
        }
    }
}

/// What a message on a control connection asks for.
#[derive(Debug)]
pub enum Command {
    /// Turn this connection into the status channel.
    SetStatusHandler,
    /// Stop the server.
    Stop,
    /// Flash the device, with the configuration at this path or, without a
    /// path, with the one in use.
    Flash(Option<String>),
    /// A flash whose value is no path.
    Invalid,
    /// Any other message.
    Unknown,
}

pub enum CommandView {
    SetStatusHandler,
    Stop,
    Flash(Option<Seq<char>>),
    Invalid,
    Unknown,
}

impl View for Command {
    type V = CommandView;

    open spec fn view(&self) -> CommandView {
        match *self {
            Command::SetStatusHandler => CommandView::SetStatusHandler,
            Command::Stop => CommandView::Stop,
            Command::Flash(Some(path)) => CommandView::Flash(Some(path@)),
            Command::Flash(None) => CommandView::Flash(None),
            Command::Invalid => CommandView::Invalid,
            Command::Unknown => CommandView::Unknown,
        }
    }
}

/// What the server does with a connection after a command.
#[derive(Clone, Copy, Debug, PartialEq, Eq, Structural)]
pub enum Next {
    /// Read the next line.
    Continue,
    /// Do what was asked and close the connection.
    Close,
    /// Keep the connection as the status channel.
    Upgrade,
    /// Close the connection and stop accepting others.
    Shutdown,
}

/// What a message on the status channel asks for.
#[derive(Debug)]
pub enum StatusCommand {
    /// Show this image, given as base64 text.
    Push(String),
    /// A push without an image.
    Missing,
    /// A push whose value is no text.
    Invalid,
    /// Any other message.
    Unknown,
}

pub enum StatusCommandView {
    Push(Seq<char>),
    Missing,
    Invalid,
    Unknown,
}

impl View for StatusCommand {
    type V = StatusCommandView;

    open spec fn view(&self) -> StatusCommandView {
        match *self {
            StatusCommand::Push(text) => StatusCommandView::Push(text@),
            StatusCommand::Missing => StatusCommandView::Missing,
            StatusCommand::Invalid => StatusCommandView::Invalid,
            StatusCommand::Unknown => StatusCommandView::Unknown,
        }
    }
}

/// The command that a message of type `kind` with the value `value` is.
pub open spec fn command_of(kind: Seq<char>, value: PayloadView) -> CommandView {
    if kind == "setStatusHandler"@ {
        CommandView::SetStatusHandler
    } else if kind == "stop"@ {
        CommandView::Stop
    } else if kind == "flash"@ {
        match value {
            PayloadView::Absent => CommandView::Flash(None),
            PayloadView::Text(path) => CommandView::Flash(Some(path)),
            PayloadView::Other => CommandView::Invalid,
        }
    } else {
        CommandView::Unknown
    }
}

/// What follows a command: a stop ends the server, a flash and an upgrade
/// end the reading of lines, anything else is passed over.
pub open spec fn next_of(command: CommandView) -> Next {
    match command {
        CommandView::SetStatusHandler => Next::Upgrade,
        CommandView::Stop => Next::Shutdown,
        CommandView::Flash(_) => Next::Close,
        CommandView::Invalid => Next::Continue,
        CommandView::Unknown => Next::Continue,
    }
}

/// What follows a flash command once its configuration was looked for: with
/// a configuration the device is flashed and the connection closed; without
/// one the command is passed over and the next line is read.
pub open spec fn next_of_flash(loaded: bool) -> Next {
    if loaded {
        Next::Close
    } else {
        Next::Continue
    }
}

/// What came of reading a line from a connection.
#[derive(Clone, Copy, Debug, PartialEq, Eq, Structural)]
pub enum LineRead {
    /// A line that is a message.
    Frame,
    /// A line that is no message.
    Unparsable,
    /// The read failed.
    Failed,
}

/// What a channel does with what it read.
#[derive(Clone, Copy, Debug, PartialEq, Eq, Structural)]
pub enum LineStep {
    /// Do what the message asks for.
    Interpret,
    /// Pass the line over and read the next.
    Skip,
    /// Stop reading from this connection.
    End,
}

/// What a channel does with what it read, on the control connection as on
/// the status channel: a message is interpreted, a line that is none is
/// passed over, and a read that failed ends the reading.
pub open spec fn step_of(read: LineRead) -> LineStep {
    match read {
        LineRead::Frame => LineStep::Interpret,
        LineRead::Unparsable => LineStep::Skip,
        LineRead::Failed => LineStep::End,
    }
}

/// What a command makes the server do on the device.
#[derive(Clone, Copy, Debug, PartialEq, Eq, Structural)]
pub enum Work {
    /// Nothing.
    Nothing,
    /// Flash the device.
    Flash,
    /// Ask for the layout, to tell it to the new status channel.
    Layout,
}

/// What follows a line of a connection: for a flash it depends on whether
/// its configuration was found, for anything else on the command alone.
pub open spec fn line_outcome(command: CommandView, loaded: bool) -> Next {
    match command {
        CommandView::Flash(_) => next_of_flash(loaded),
        _ => next_of(command),
    }
}

/// What a line of a connection makes the server do on the device: a flash
/// whose configuration was found flashes, an upgrade asks for the layout,
/// and a stop, like anything else, does nothing there.
pub open spec fn work_of(command: CommandView, loaded: bool) -> Work {
    match command {
        CommandView::Flash(_) => if loaded {
            Work::Flash
        } else {
            Work::Nothing
        },
        CommandView::SetStatusHandler => Work::Layout,
        _ => Work::Nothing,
    }
}

/// How a connection ends: with what follows the first of its lines that is
/// not passed over, and with `Continue` where the peer closes it before any
/// such line. Each line is a command and whether the configuration of a
/// flash was found.
pub open spec fn connection_outcome(lines: Seq<(CommandView, bool)>) -> Next
    decreases lines.len(),
{
    if lines.len() == 0 {
        Next::Continue
    } else if line_outcome(lines.first().0, lines.first().1) != Next::Continue {
        line_outcome(lines.first().0, lines.first().1)
    } else {
        connection_outcome(lines.drop_first())
    }
}

/// Whether the server accepts another connection after one that ended with
/// `outcome`: always, but after a stop.
pub open spec fn accepts_after(outcome: Next) -> bool {
    outcome != Next::Shutdown
}

/// How many of the connections that are offered the server accepts before it
/// returns.
pub open spec fn accepted(connections: Seq<Seq<(CommandView, bool)>>) -> nat
    decreases connections.len(),
{
    if connections.len() == 0 {
        0
    } else if accepts_after(connection_outcome(connections.first())) {
        1 + accepted(connections.drop_first())
    } else {
        1
    }
}

/// A stop ends the server: a connection whose first line that is not passed
/// over is a stop ends with `Shutdown`; the stop itself makes the server do
/// nothing on the device; and of the connections that are offered none is
/// accepted behind the first that ends so.
pub proof fn law_stop_ends_the_server(
    connections: Seq<Seq<(CommandView, bool)>>,
    k: int,
    lines: Seq<(CommandView, bool)>,
    at: int,
)
    requires
        0 <= at < lines.len(),
        lines[at].0 == CommandView::Stop,
        forall|i: int|
            0 <= i < at ==> line_outcome((#[trigger] lines[i]).0, lines[i].1) == Next::Continue,
        0 <= k < connections.len(),
        connections[k] == lines,
        forall|j: int| 0 <= j < k ==> accepts_after(connection_outcome(#[trigger] connections[j])),
    ensures
        connection_outcome(lines) == Next::Shutdown,
        !accepts_after(connection_outcome(lines)),
        work_of(lines[at].0, lines[at].1) == Work::Nothing,
        accepted(connections) == k + 1,
{
    lemma_connection_ends_at(lines, at);
    lemma_accepted_upto(connections, k);
}

proof fn lemma_connection_ends_at(lines: Seq<(CommandView, bool)>, at: int)
    requires
        0 <= at < lines.len(),
        forall|i: int|
            0 <= i < at ==> line_outcome((#[trigger] lines[i]).0, lines[i].1) == Next::Continue,
        line_outcome(lines[at].0, lines[at].1) != Next::Continue,
    ensures
        connection_outcome(lines) == line_outcome(lines[at].0, lines[at].1),
    decreases at,
{
    if at > 0 {
        let rest = lines.drop_first();
        assert(lines.first() == lines[0]);
        assert forall|i: int| 0 <= i < at - 1 implies line_outcome(
            (#[trigger] rest[i]).0,
            rest[i].1,
        ) == Next::Continue by {
            assert(rest[i] == lines[i + 1]);
        }
        assert(rest[at - 1] == lines[at]);
        lemma_connection_ends_at(rest, at - 1);
    }
}

proof fn lemma_accepted_upto(connections: Seq<Seq<(CommandView, bool)>>, k: int)
    requires
        0 <= k < connections.len(),
        forall|j: int| 0 <= j < k ==> accepts_after(connection_outcome(#[trigger] connections[j])),
        !accepts_after(connection_outcome(connections[k])),
    ensures
        accepted(connections) == k + 1,
    decreases k,
{
    if k > 0 {
        let rest = connections.drop_first();
        assert(connections.first() == connections[0]);
        assert forall|j: int| 0 <= j < k - 1 implies accepts_after(
            connection_outcome(#[trigger] rest[j]),
        ) by {
            assert(rest[j] == connections[j + 1]);
        }
        assert(rest[k - 1] == connections[k]);
        lemma_accepted_upto(rest, k - 1);
    }
}

/// The command that a message on the status channel is.
pub open spec fn status_command_of(kind: Seq<char>, value: PayloadView) -> StatusCommandView {
    if kind == "setStatus"@ {
        match value {
            PayloadView::Absent => StatusCommandView::Missing,
            PayloadView::Text(text) => StatusCommandView::Push(text),
            PayloadView::Other => StatusCommandView::Invalid,
        }
    } else {
        StatusCommandView::Unknown
    }
}

/// Whether two texts are the same.
pub fn same_text(a: &str, b: &str) -> (r: bool)
    ensures
        r == (a@ == b@),
{
    let len: usize = a.unicode_len();
    if len != b.unicode_len() {
        return false;
    }
    let mut i: usize = 0;
    while i < len
        invariant
            i <= len,
            len == a@.len(),
            len == b@.len(),
            forall|j: int| 0 <= j < i ==> a@[j] == b@[j],
        decreases len - i,
    {
        if a.get_char(i) != b.get_char(i) {
            return false;
        }
        i += 1;
    }
    assert(a@ =~= b@);
    true
}

pub fn interpret_command(kind: &str, value: Payload) -> (r: Command)
    ensures
        r@ == command_of(kind@, value@),
{
    if same_text(kind, "setStatusHandler") {
        Command::SetStatusHandler
    } else if same_text(kind, "stop") {
        Command::Stop
    } else if same_text(kind, "flash") {
        match value {
            Payload::Absent => Command::Flash(None),
            Payload::Text(path) => Command::Flash(Some(path)),
            Payload::Other => Command::Invalid,
        }
    } else {
        Command::Unknown
    }
}

pub fn next_step(command: &Command) -> (r: Next)
    ensures
        r == next_of(command@),
{
    match command {
        Command::SetStatusHandler => Next::Upgrade,
        Command::Stop => Next::Shutdown,
        Command::Flash(_) => Next::Close,
        Command::Invalid => Next::Continue,
        Command::Unknown => Next::Continue,
    }
}

pub fn line_step(read: LineRead) -> (r: LineStep)
    ensures
        r == step_of(read),
{
    match read {
        LineRead::Frame => LineStep::Interpret,
        LineRead::Unparsable => LineStep::Skip,
        LineRead::Failed => LineStep::End,
    }
}

/// Whether the channel goes on reading after what it read.
pub fn reads_on(read: LineRead) -> (r: bool)
    ensures
        r == (step_of(read) != LineStep::End),
        r == !(read is Failed),
{
    match read {
        LineRead::Failed => false,
        _ => true,
    }
}

pub fn next_after_flash(loaded: bool) -> (r: Next)
    ensures
        r == next_of_flash(loaded),
{
    if loaded {
        Next::Close
    } else {
        Next::Continue
    }
}

/// What follows a line of a connection. `loaded` says whether the
/// configuration of a flash was found; for other commands it plays no part.
pub fn next_after_line(command: &Command, loaded: bool) -> (r: Next)
    ensures
        r == line_outcome(command@, loaded),
{
    match command {
        Command::Flash(_) => next_after_flash(loaded),
        _ => next_step(command),
    }
}

/// What a line of a connection makes the server do on the device.
pub fn work_after_line(command: &Command, loaded: bool) -> (r: Work)
    ensures
        r == work_of(command@, loaded),
{
    match command {
        Command::Flash(_) => if loaded {
            Work::Flash
        } else {
            Work::Nothing
        },
        Command::SetStatusHandler => Work::Layout,
        _ => Work::Nothing,
    }
}

/// Whether the server accepts another connection after one that ended with
/// `outcome`.
pub fn keeps_accepting(outcome: Next) -> (r: bool)
    ensures
        r == accepts_after(outcome),
{
    match outcome {
        Next::Shutdown => false,
        _ => true,
    }
}

pub fn interpret_status_command(kind: &str, value: Payload) -> (r: StatusCommand)
    ensures
        r@ == status_command_of(kind@, value@),
{
    if same_text(kind, "setStatus") {
        match value {
            Payload::Absent => StatusCommand::Missing,
            Payload::Text(text) => StatusCommand::Push(text),
            Payload::Other => StatusCommand::Invalid,
        }
    } else {
        StatusCommand::Unknown
    }
}

/// What the server tells a new status channel: the width and the height of
/// the status bar.
pub fn status_canvas(info: &DeviceInfo) -> (r: (u32, u32))
    ensures
        r == (info.width, info.status_bar_height),
{
    (info.width, info.status_bar_height)
}

/// The address on which the server listens: the local host, and the port
/// that was named or else 8964.
pub open spec fn address_of(tcp_port: Option<String>) -> Seq<char> {
    "127.0.0.1:"@ + match tcp_port {
        Some(port) => port@,
        None => "8964"@,
    }
}

pub fn listen_address(tcp_port: &Option<String>) -> (r: String)
    ensures
        r@ == address_of(*tcp_port),
{
    let mut address: String = String::from_str("127.0.0.1:");
    match tcp_port {
        Some(port) => address.append(port.as_str()),
        None => address.append("8964"),
    }
    address
}

/// The file that holds the configuration: the one that was named, or else
/// `config.json`.
pub fn config_file(config_path: &Option<String>) -> (r: String)
    ensures
        r@ == match *config_path {
            Some(path) => path@,
            None => "config.json"@,
        },
{
    match config_path {
        Some(path) => path.clone(),
        None => String::from_str("config.json"),
    }
}

/// A command to run, with its arguments.
#[derive(Debug)]
pub struct Action {
    pub command: String,
    pub args: Vec<String>,
}

/// What a button or the status bar runs: its command, with its arguments or
/// with none where none are given. `None` where it has no command.
pub open spec fn action_of(button: ButtonConfig) -> Option<(String, Seq<String>)> {
    match button.command {
        None => None,
        Some(command) => Some(
            (
                command,
                match button.args {
                    Some(args) => args@,
                    None => Seq::empty(),
                },
            ),
        ),
    }
}

pub fn action(button: &ButtonConfig) -> (r: Option<Action>)
    ensures
        match r {
            Some(a) => action_of(*button) == Some((a.command, a.args@)),
            None => action_of(*button) is None,
        },
{
    match &button.command {
        None => None,
        Some(command) => {
            let args: Vec<String> = match &button.args {
                Some(args) => copy_texts(args),
                None => Vec::new(),
            };
            Some(Action { command: command.clone(), args })
        },
    }
}

/// The program that draws the status bar, where the configuration names
/// one.
pub fn status_producer(config: &Config) -> (r: Option<Action>)
    ensures
        match r {
            Some(a) => config.status matches Some(status) && action_of(status) == Some(
                (a.command, a.args@),
            ),
            None => config.status matches Some(status) ==> action_of(status) is None,
        },
{
    match &config.status {
        None => None,
        Some(status) => action(status),
    }
}

/// The buttons of the first `n` entries that run a command, each with its
/// path and what it runs, in order.
pub open spec fn actions_upto(config: Config, n: int) -> Seq<(String, (String, Seq<String>))>
    decreases n,
{
    if n <= 0 || config.buttons is None {
        Seq::empty()
    } else {
        let rest = actions_upto(config, n - 1);
        let entry = config.buttons->0@[n - 1];
        match action_of(entry.1) {
            Some(a) => rest.push((entry.0, a)),
            None => rest,
        }
    }
}

pub open spec fn action_views(v: Seq<(String, Action)>) -> Seq<(String, (String, Seq<String>))> {
    Seq::new(v.len(), |i: int| (v[i].0, (v[i].1.command, v[i].1.args@)))
}

/// The handlers to register: for every button with a command, its path and
/// what it runs.
pub fn button_actions(config: &Config) -> (r: Vec<(String, Action)>)
    ensures
        action_views(r@) == actions_upto(
            *config,
            match config.buttons {
                Some(buttons) => buttons@.len() as int,
                None => 0,
            },
        ),
{
    let mut out: Vec<(String, Action)> = Vec::new();
    assert(action_views(out@) =~= Seq::<(String, (String, Seq<String>))>::empty());
    match &config.buttons {
        None => {},
        Some(buttons) => {
            let mut i: usize = 0;
            while i < buttons.len()
                invariant
                    i <= buttons@.len(),
                    config.buttons == Some(*buttons),
                    action_views(out@) == actions_upto(*config, i as int),
                decreases buttons@.len() - i,
            {
                match action(&buttons[i].1) {
                    None => {},
                    Some(a) => {
                        let ghost before = action_views(out@);
                        let path: String = buttons[i].0.clone();
                        out.push((path, a));
                        assert(action_views(out@) =~= before.push(
                            (path, (a.command, a.args@)),
                        ));
                    },
                }
                i += 1;
            }
        },
    }
    out
}

/// The image that a push on the status channel carries: the base64 text
/// read and the file behind it decoded. Text that is no base64 is an error;
/// which files decode, and to what, is the decoder's matter.
pub fn decode_status(text: &String) -> (r: Result<Image, Error>)
    ensures
        match r {
            Ok(image) => image@.wf() && base64_decoding(bytes_of(*text)) is Some,
            Err(e) => e == Error::Image,
        },
        base64_decoding(bytes_of(*text)) is None ==> r is Err,
{
    match decode_base64(text_bytes(text)) {
        Err(e) => Err(e),
        Ok(file) => decode_image(file.as_slice()),
    }
}

/// A status image on its way to the bar, with the tries that it has left.
#[derive(Debug)]
pub struct StatusPush {
    image: Image,
    failures: u32,
    over: bool,
}

pub struct StatusPushView {
    pub image: Pixels,
    /// How many tries have failed.
    pub failures: nat,
    pub over: bool,
}

impl View for StatusPush {
    type V = StatusPushView;

    closed spec fn view(&self) -> StatusPushView {
        StatusPushView { image: self.image@, failures: self.failures as nat, over: self.over }
    }
}

/// A push, the session, and the step to take.
pub type Attempt = (StatusPushView, DeckState, StepView);

impl StatusPushView {
    /// Tries to show the image, and again where a try ends with an error
    /// before anything is on its way, as long as tries are left. With the
    /// last try the error is handed back.
    pub open spec fn attempt(self, deck: DeckState) -> Attempt
        decreases MAX_TRIES - self.failures,
    {
        let begun = deck.set_status(self.image);
        match begun.1 {
            StepView::Finished(Ok(reply)) => (
                StatusPushView { over: true, ..self },
                begun.0,
                begun.1,
            ),
            StepView::Finished(Err(e)) => if self.failures + 1 >= MAX_TRIES {
                (
                    StatusPushView { failures: self.failures + 1, over: true, ..self },
                    begun.0,
                    begun.1,
                )
            } else {
                (StatusPushView { failures: self.failures + 1, ..self }).attempt(begun.0)
            },
            _ => (self, begun.0, begun.1),
        }
    }

    /// What the push makes of a step of the session: a step that asks for
    /// something on the port is handed on, success ends the push, and an
    /// error ends it if that was the last try and else leads to the next.
    pub open spec fn after(self, deck: DeckState, step: StepView) -> Attempt {
        match step {
            StepView::Finished(Ok(reply)) => (StatusPushView { over: true, ..self }, deck, step),
            StepView::Finished(Err(e)) => if self.failures + 1 >= MAX_TRIES {
                (StatusPushView { failures: self.failures + 1, over: true, ..self }, deck, step)
            } else {
                (StatusPushView { failures: self.failures + 1, ..self }).attempt(deck)
            },
            _ => (self, deck, step),
        }
    }

    pub open spec fn resume(self, deck: DeckState, event: EventView, decoded: Option<Pixels>)
        -> Attempt {
        if self.over {
            (self, deck, StepView::Finished(Err(Error::State)))
        } else {
            let next = deck.resume(event, decoded);
            self.after(next.0, next.1)
        }
    }
}

/// A push is given up only after all its tries: as long as fewer than
/// `MAX_TRIES` tries have failed the push goes on, and where it ends with an
/// error exactly `MAX_TRIES` tries have failed.
pub proof fn law_push_is_tried_to_the_last(push: StatusPushView, deck: DeckState)
    requires
        push.failures < MAX_TRIES,
        !push.over,
    ensures
        ({
            let end = push.attempt(deck);
            &&& end.0.failures <= MAX_TRIES
            &&& end.0.image == push.image
            &&& end.2 matches StepView::Finished(Err(_)) ==> end.0.over && end.0.failures
                == MAX_TRIES
            &&& end.2 matches StepView::Finished(Ok(_)) ==> end.0.over && end.0.failures
                < MAX_TRIES
            &&& !(end.2 is Finished) ==> !end.0.over && end.0.failures < MAX_TRIES
        }),
    decreases MAX_TRIES - push.failures,
{
    let begun = deck.set_status(push.image);
    if begun.1 matches StepView::Finished(Err(_)) && push.failures + 1 < MAX_TRIES {
        law_push_is_tried_to_the_last(
            StatusPushView { failures: push.failures + 1, ..push },
            begun.0,
        );
    }
}

/// Where a push ends up that gave `step` and then takes the events of
/// `turns` one after the other. Once the push has given its last step, the
/// events that are left are not taken.
pub open spec fn push_run(push: StatusPushView, deck: DeckState, step: StepView, turns: Seq<Turn>)
    -> Attempt
    decreases turns.len(),
{
    if turns.len() == 0 || step is Finished {
        (push, deck, step)
    } else {
        let next = push.resume(deck, turns.first().0, turns.first().1);
        push_run(next.0, next.1, next.2, turns.drop_first())
    }
}

proof fn lemma_push_follows_the_session(
    push: StatusPushView,
    deck: DeckState,
    step: StepView,
    turns: Seq<Turn>,
)
    requires
        !push.over,
        !(step is Finished),
    ensures
        succeeded(run(deck, step, turns).1) ==> push_run(push, deck, step, turns) == (
            StatusPushView { over: true, ..push },
            run(deck, step, turns).0,
            run(deck, step, turns).1,
        ),
    decreases turns.len(),
{
    if turns.len() > 0 {
        let next = deck.resume(turns.first().0, turns.first().1);
        assert(run(deck, step, turns) == run(next.0, next.1, turns.drop_first()));
        let after = push.resume(deck, turns.first().0, turns.first().1);
        assert(push_run(push, deck, step, turns) == push_run(
            after.0,
            after.1,
            after.2,
            turns.drop_first(),
        ));
        if !(next.1 is Finished) {
            lemma_push_follows_the_session(push, next.0, next.1, turns.drop_first());
        }
    }
}

/// One push is one `set_status`: where `set_status` with the image goes
/// through on the events that arrive, whether it is sent at once or the
/// layout is asked for first, the push takes the very steps of that one
/// `set_status`, no try of it fails, it is over when the device has
/// acknowledged the image, and the status bar then shows the image.
pub proof fn law_push_that_goes_through_is_one_set_status(
    deck: DeckState,
    image: Pixels,
    turns: Seq<Turn>,
)
    requires
        deck.pending is None,
    ensures
        ({
            let begun = deck.set_status(image);
            let end = run(begun.0, begun.1, turns);
            let push = StatusPushView { image, failures: 0, over: false };
            let first = push.attempt(deck);
            succeeded(end.1) ==> push_run(first.0, first.1, first.2, turns) == (
                StatusPushView { over: true, ..push },
                end.0,
                end.1,
            ) && is_shown(end.0, image)
        }),
{
    let begun = deck.set_status(image);
    let push = StatusPushView { image, failures: 0, over: false };
    law_same_status_twice_is_sent_once(deck, image, turns);
    if !(begun.1 is Finished) {
        lemma_push_follows_the_session(push, begun.0, begun.1, turns);
    }
}

impl StatusPush {
    #[verifier::type_invariant]
    spec fn inv(self) -> bool {
        self.failures <= MAX_TRIES && (!self.over ==> self.failures < MAX_TRIES)
    }

    /// Whether the push has ended.
    pub fn is_over(&self) -> (r: bool)
        ensures
            r == self@.over,
    {
        self.over
    }

    /// How many tries have failed.
    pub fn failures(&self) -> (r: u32)
        ensures
            r == self@.failures,
    {
        self.failures
    }

    fn attempt<B, S>(&mut self, deck: &mut MacroDeck<B, S>) -> (step: Step)
        requires
            old(self)@.failures < MAX_TRIES,
        ensures
            (final(self)@, final(deck)@, step@) == old(self)@.attempt(old(deck)@),
            final(deck).handlers() == old(deck).handlers(),
    {
        loop
            invariant
                self.failures < MAX_TRIES,
                deck.handlers() == old(deck).handlers(),
                self@.attempt(deck@) == old(self)@.attempt(old(deck)@),
            decreases MAX_TRIES - self.failures,
        {
            let step: Step = deck.set_status(self.image.duplicate());
            match step {
                Step::Finished(Ok(reply)) => {
                    self.over = true;
                    return Step::Finished(Ok(reply));
                },
                Step::Finished(Err(e)) => {
                    if self.failures + 1 >= MAX_TRIES {
                        self.over = true;
                        self.failures = self.failures + 1;
                        return Step::Finished(Err(e));
                    }
                    self.failures = self.failures + 1;
                },
                other => {
                    return other;
                },
            }
        }
    }

    /// Goes on with the push, given what happened on the port.
    pub fn resume<B, S>(&mut self, deck: &mut MacroDeck<B, S>, event: Event) -> (step: Step)
        ensures
            exists|decoded: Option<Pixels>|
                (final(self)@, final(deck)@, step@) == #[trigger] old(self)@.resume(
                    old(deck)@,
                    event@,
                    decoded,
                ),
            final(deck).handlers() == old(deck).handlers(),
    {
        proof {
            use_type_invariant(&*self);
        }
        if self.over {
            let ghost none: Option<Pixels> = None;
            assert((self@, deck@, StepView::Finished(Err(Error::State))) == old(self)@.resume(
                old(deck)@,
                event@,
                none,
            ));
            return Step::Finished(Err(Error::State));
        }
        let inner: Step = deck.resume(event);
        let ghost decoded = choose|decoded: Option<Pixels>|
            (decoded matches Some(p) ==> p.wf()) && (deck@, inner@) == #[trigger] old(
                deck,
            )@.resume(event@, decoded);
        let step: Step = match inner {
            Step::Finished(Ok(reply)) => {
                self.over = true;
                Step::Finished(Ok(reply))
            },
            Step::Finished(Err(e)) => {
                if self.failures + 1 >= MAX_TRIES {
                    self.over = true;
                    self.failures = self.failures + 1;
                    Step::Finished(Err(e))
                } else {
                    self.failures = self.failures + 1;
                    self.attempt(deck)
                }
            },
            other => other,
        };
        assert((self@, deck@, step@) == old(self)@.resume(old(deck)@, event@, decoded));
        step
    }
}

/// Begins to show `image` on the status bar, with up to `MAX_TRIES` tries.
/// The push that comes back takes the events from here on.
pub fn push_status<B, S>(deck: &mut MacroDeck<B, S>, image: Image) -> (r: (StatusPush, Step))
    ensures
        (r.0@, final(deck)@, r.1@) == (StatusPushView {
            image: image@,
            failures: 0,
            over: false,
        }).attempt(old(deck)@),
        final(deck).handlers() == old(deck).handlers(),
{
    let mut push = StatusPush { image, failures: 0, over: false };
    let step: Step = push.attempt(deck);
    (push, step)
}

} // verus!
