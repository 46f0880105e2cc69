//! The device session as a state machine.
//!
//! The session never touches the serial port. Each operation answers with a
//! `Step`: bytes to write, a line or a payload to read, or the result. The
//! caller does what the step says and hands back what happened as an `Event`,
//! until the step is `Finished`. This file holds the values that pass to and
//! fro and says, over their views, what every operation and every event
//! leads to.

use vstd::prelude::*;
use crate::bytes::{decimal_digits, numeral_u32, views, NEWLINE};
use crate::cache::{inserted, lookup};
use crate::codec::jpeg_of;
use crate::device::DeviceInfo;
use crate::error::{Error, TransportFault};
use crate::message::{
    decoding, encoding, TAG_CF, TAG_DF, TAG_DI, TAG_LD, TAG_LI, TAG_OK, TAG_RD, TAG_RD_ASK,
    TAG_RI, TAG_SP, TAG_SS, TAG_WI,
};
use crate::paths::{extended, extended_above, pruned};
use crate::raster::{patch_of, Image, Pixels};

verus! {

/// The speed of the serial line, in bits per second.
pub const BAUD_RATE: u32 = 115200;

/// How long a read on the serial line waits, in seconds.
pub const READ_TIMEOUT_SECONDS: u64 = 3;

/// What an operation that succeeded hands back.
#[derive(Debug)]
pub enum Reply {
    Done,
    Info(DeviceInfo),
    Icon(Image),
    Directories(Vec<Vec<u8>>),
}

pub enum ReplyView {
    Done,
    Info(DeviceInfo),
    Icon(Pixels),
    Directories(Seq<Seq<u8>>),
}

impl View for Reply {
    type V = ReplyView;

    open spec fn view(&self) -> ReplyView {
        match *self {
            Reply::Done => ReplyView::Done,
            Reply::Info(info) => ReplyView::Info(info),
            Reply::Icon(image) => ReplyView::Icon(image@),
            Reply::Directories(dirs) => ReplyView::Directories(views(dirs@)),
        }
    }
}

/// What the caller has to do next.
#[derive(Debug)]
pub enum Step {
    /// Write these bytes to the port and report how many were written.
    Write(Vec<u8>),
    /// Read one line from the port and report it.
    ReadLine,
    /// Read exactly so many bytes from the port and report them.
    ReadExact(u32),
    /// The operation has ended, with this result.
    Finished(Result<Reply, Error>),
}

pub enum StepView {
    Write(Seq<u8>),
    ReadLine,
    ReadExact(u32),
    Finished(Result<ReplyView, Error>),
}

impl View for Step {
    type V = StepView;

    open spec fn view(&self) -> StepView {
        match *self {
            Step::Write(bytes) => StepView::Write(bytes@),
            Step::ReadLine => StepView::ReadLine,
            Step::ReadExact(n) => StepView::ReadExact(n),
            Step::Finished(Ok(reply)) => StepView::Finished(Ok(reply@)),
            Step::Finished(Err(e)) => StepView::Finished(Err(e)),
        }
    }
}

/// What happened on the port.
#[derive(Debug)]
pub enum Event {
    /// So many bytes were written.
    Written(usize),
    /// A line arrived.
    Line(Vec<u8>),
    /// The bytes that were asked for arrived.
    Payload(Vec<u8>),
    /// The port failed.
    Failed(TransportFault),
}

pub enum EventView {
    Written(usize),
    Line(Seq<u8>),
    Payload(Seq<u8>),
    Failed(TransportFault),
}

impl View for Event {
    type V = EventView;

    open spec fn view(&self) -> EventView {
        match *self {
            Event::Written(n) => EventView::Written(n),
            Event::Line(bytes) => EventView::Line(bytes@),
            Event::Payload(bytes) => EventView::Payload(bytes@),
            Event::Failed(fault) => EventView::Failed(fault),
        }
    }
}

/// What a request does to the directory index once the device has
/// acknowledged it.
#[derive(Debug)]
pub enum After {
    Nothing,
    /// A folder was created at this path: it and the directories above it
    /// are added.
    Add(Vec<u8>),
    /// An icon was written at this path: the directories above it are added.
    AddAbove(Vec<u8>),
    /// What was at this path was removed: it and all below it are taken out.
    Prune(Vec<u8>),
}

pub enum AfterView {
    Nothing,
    Add(Seq<u8>),
    AddAbove(Seq<u8>),
    Prune(Seq<u8>),
}

impl View for After {
    type V = AfterView;

    open spec fn view(&self) -> AfterView {
        match *self {
            After::Nothing => AfterView::Nothing,
            After::Add(path) => AfterView::Add(path@),
            After::AddAbove(path) => AfterView::AddAbove(path@),
            After::Prune(path) => AfterView::Prune(path@),
        }
    }
}

/// The exchange with the device that is under way, and how far it has come.
#[derive(Debug)]
pub enum Exchange {
    /// `li` was sent. With an image, the status bar is to be set to it once
    /// the layout is known.
    Info { then: Option<Image> },
    /// `ld` was sent.
    Listing,
    /// `ri` was sent; the device is to announce the size of the icon.
    IconQuery { path: Vec<u8> },
    /// `rd` was sent; the bytes of the icon are to come.
    IconFetch { path: Vec<u8>, size: u32 },
    /// `wi` was sent; the device is to say that it is ready.
    IconOffer { path: Vec<u8>, icon: Image, payload: Vec<u8> },
    /// The bytes of the icon were sent; the device is to acknowledge them.
    IconCommit { path: Vec<u8>, icon: Image },
    /// `ss` was sent; the device is to say that it is ready.
    StatusOffer { image: Image, payload: Vec<u8> },
    /// The bytes of the patch were sent; the device is to acknowledge them.
    StatusCommit { image: Image },
    /// A request was sent that the device only has to acknowledge.
    Acknowledge { after: After },
}

pub enum ExchangeView {
    Info { then: Option<Pixels> },
    Listing,
    IconQuery { path: Seq<u8> },
    IconFetch { path: Seq<u8>, size: u32 },
    IconOffer { path: Seq<u8>, icon: Pixels, payload: Seq<u8> },
    IconCommit { path: Seq<u8>, icon: Pixels },
    StatusOffer { image: Pixels, payload: Seq<u8> },
    StatusCommit { image: Pixels },
    Acknowledge { after: AfterView },
}

pub open spec fn image_view(image: Option<Image>) -> Option<Pixels> {
    match image {
        Some(i) => Some(i@),
        None => None,
    }
}

impl View for Exchange {
    type V = ExchangeView;

    open spec fn view(&self) -> ExchangeView {
        match *self {
            Exchange::Info { then } => ExchangeView::Info { then: image_view(then) },
            Exchange::Listing => ExchangeView::Listing,
            Exchange::IconQuery { path } => ExchangeView::IconQuery { path: path@ },
            Exchange::IconFetch { path, size } => ExchangeView::IconFetch { path: path@, size },
            Exchange::IconOffer { path, icon, payload } => ExchangeView::IconOffer {
                path: path@,
                icon: icon@,
                payload: payload@,
            },
            Exchange::IconCommit { path, icon } => ExchangeView::IconCommit {
                path: path@,
                icon: icon@,
            },
            Exchange::StatusOffer { image, payload } => ExchangeView::StatusOffer {
                image: image@,
                payload: payload@,
            },
            Exchange::StatusCommit { image } => ExchangeView::StatusCommit { image: image@ },
            Exchange::Acknowledge { after } => ExchangeView::Acknowledge { after: after@ },
        }
    }
}

/// The event that the session waits for.
#[derive(Clone, Copy, Debug, PartialEq, Eq, Structural)]
pub enum Awaited {
    /// That so many bytes were written.
    Written(usize),
    Line,
    Payload,
}

#[derive(Debug)]
pub struct Pending {
    pub exchange: Exchange,
    pub awaited: Awaited,
}

pub struct PendingView {
    pub exchange: ExchangeView,
    pub awaited: Awaited,
}

impl View for Pending {
    type V = PendingView;

    open spec fn view(&self) -> PendingView {
        PendingView { exchange: self.exchange@, awaited: self.awaited }
    }
}

/// What a session knows and what it waits for.
pub struct DeckState {
    /// The layout of the device, once it was asked for.
    pub info: Option<DeviceInfo>,
    /// The icon cache.
    pub icons: Seq<(Seq<u8>, Pixels)>,
    /// The directory index, once the device was asked for it.
    pub dirs: Option<Seq<Seq<u8>>>,
    /// The image on the status bar, once one was set.
    pub status: Option<Pixels>,
    /// The exchange under way.
    pub pending: Option<PendingView>,
}

/// The bytes of a request: the frame and a line end.
pub open spec fn request(tag: Seq<u8>, args: Seq<Seq<u8>>) -> Seq<u8> {
    encoding(tag, args).push(NEWLINE)
}

/// The size that the device announces for an icon: the first argument of a
/// frame `rd?`.
pub open spec fn announced_size(tag: Seq<u8>, args: Seq<Seq<u8>>) -> Option<u32> {
    if tag == TAG_RD_ASK@ && args.len() >= 1 {
        numeral_u32(args[0])
    } else {
        None
    }
}

impl DeckState {
    /// A session that knows nothing yet.
    pub open spec fn fresh() -> DeckState {
        DeckState { info: None, icons: Seq::empty(), dirs: None, status: None, pending: None }
    }

    /// The layout is known, and `image` is whole and has the size of the
    /// status bar.
    pub open spec fn has_room_for(self, image: Pixels) -> bool {
        image.wf() && self.info is Some && image.width == self.info->0.width && image.height
            == self.info->0.status_bar_height
    }

    /// What the session holds is sound: the layout is exact and is asked for
    /// only while it is not known, every image is whole, and the image on
    /// the status bar, like one that is on its way there, has the size of
    /// the status bar.
    pub open spec fn wf(self) -> bool {
        &&& self.info matches Some(info) ==> info.wf()
        &&& forall|i: int| 0 <= i < self.icons.len() ==> (#[trigger] self.icons[i]).1.wf()
        &&& self.status matches Some(image) ==> self.has_room_for(image)
        &&& self.pending matches Some(p) ==> match p.exchange {
            ExchangeView::Info { then } => self.info is None && (then matches Some(image)
                ==> image.wf()),
            ExchangeView::IconOffer { path, icon, payload } => icon.wf(),
            ExchangeView::IconCommit { path, icon } => icon.wf(),
            ExchangeView::StatusOffer { image, payload } => self.has_room_for(image),
            ExchangeView::StatusCommit { image } => self.has_room_for(image),
            _ => true,
        }
    }

    pub open spec fn idle(self) -> DeckState {
        DeckState { pending: None, ..self }
    }

    /// An operation that starts while another is under way is refused and
    /// changes nothing.
    pub open spec fn refuse(self) -> (DeckState, StepView) {
        (self, StepView::Finished(Err(Error::State)))
    }

    pub open spec fn fail(self, e: Error) -> (DeckState, StepView) {
        (self.idle(), StepView::Finished(Err(e)))
    }

    pub open spec fn finish(self, reply: ReplyView) -> (DeckState, StepView) {
        (self.idle(), StepView::Finished(Ok(reply)))
    }

    /// Hands `bytes` over to be written and waits for word that all of them
    /// were.
    pub open spec fn send(self, bytes: Seq<u8>, exchange: ExchangeView) -> (DeckState, StepView) {
        (
            DeckState {
                pending: Some(
                    PendingView { exchange, awaited: Awaited::Written(bytes.len() as usize) },
                ),
                ..self
            },
            StepView::Write(bytes),
        )
    }

    pub open spec fn wait(self, exchange: ExchangeView, awaited: Awaited, step: StepView) -> (
        DeckState,
        StepView,
    ) {
        (DeckState { pending: Some(PendingView { exchange, awaited }), ..self }, step)
    }

    /// The layout: from memory, or by asking with `li`.
    pub open spec fn get_info(self) -> (DeckState, StepView) {
        if self.pending is Some {
            self.refuse()
        } else {
            match self.info {
                Some(info) => self.finish(ReplyView::Info(info)),
                None => self.send(
                    request(TAG_LI@, Seq::empty()),
                    ExchangeView::Info { then: None },
                ),
            }
        }
    }

    /// The icon at `path`: from the cache, or by asking with `ri`.
    pub open spec fn get_icon(self, path: Seq<u8>) -> (DeckState, StepView) {
        if self.pending is Some {
            self.refuse()
        } else {
            match lookup(self.icons, path) {
                Some(icon) => self.finish(ReplyView::Icon(icon)),
                None => self.send(request(TAG_RI@, seq![path]), ExchangeView::IconQuery { path }),
            }
        }
    }

    /// Writes `icon` at `path`: announces the size of its JPEG file with
    /// `wi`. An image that the encoder does not take is an error.
    pub open spec fn set_icon(self, path: Seq<u8>, icon: Pixels) -> (DeckState, StepView) {
        if self.pending is Some {
            self.refuse()
        } else {
            match jpeg_of(icon) {
                None => self.fail(Error::Image),
                Some(file) => self.send(
                    request(TAG_WI@, seq![path, decimal_digits(file.len())]),
                    ExchangeView::IconOffer { path, icon, payload: file },
                ),
            }
        }
    }

    /// Shows `image` on the status bar. Where the layout is not known yet it
    /// is asked for first.
    pub open spec fn set_status(self, image: Pixels) -> (DeckState, StepView) {
        if self.pending is Some {
            self.refuse()
        } else {
            match self.info {
                Some(info) => self.push_status(info, image),
                None => self.send(
                    request(TAG_LI@, Seq::empty()),
                    ExchangeView::Info { then: Some(image) },
                ),
            }
        }
    }

    /// The status update once the layout is known. An image of another size
    /// than the status bar is an error. With no image on the bar the whole
    /// image is sent, at the corner. Else the patch is sent, and where there
    /// is none the update ends at once without a byte on the wire.
    pub open spec fn push_status(self, info: DeviceInfo, image: Pixels) -> (DeckState, StepView) {
        if image.width != info.width || image.height != info.status_bar_height {
            self.fail(Error::Image)
        } else {
            match self.status {
                None => self.offer_status(image, 0, 0, image),
                Some(prior) => match patch_of(prior, image) {
                    None => self.finish(ReplyView::Done),
                    Some((x, y, patch)) => self.offer_status(image, x, y, patch),
                },
            }
        }
    }

    /// Announces the JPEG file of `patch` for the place `(x, y)` with `ss`.
    pub open spec fn offer_status(self, image: Pixels, x: int, y: int, patch: Pixels) -> (
        DeckState,
        StepView,
    ) {
        match jpeg_of(patch) {
            None => self.fail(Error::Image),
            Some(file) => self.send(
                request(
                    TAG_SS@,
                    seq![
                        decimal_digits(x as nat),
                        decimal_digits(y as nat),
                        decimal_digits(file.len()),
                    ],
                ),
                ExchangeView::StatusOffer { image, payload: file },
            ),
        }
    }

    /// The directories on the device: from memory, or by asking with `ld`.
    pub open spec fn list_directory(self) -> (DeckState, StepView) {
        if self.pending is Some {
            self.refuse()
        } else {
            match self.dirs {
                Some(dirs) => self.finish(ReplyView::Directories(dirs)),
                None => self.send(request(TAG_LD@, Seq::empty()), ExchangeView::Listing),
            }
        }
    }

    /// A request with one argument that the device only acknowledges.
    pub open spec fn ask(self, tag: Seq<u8>, arg: Seq<u8>, after: AfterView) -> (
        DeckState,
        StepView,
    ) {
        if self.pending is Some {
            self.refuse()
        } else {
            self.send(request(tag, seq![arg]), ExchangeView::Acknowledge { after })
        }
    }

    pub open spec fn set_profile(self, name: Seq<u8>) -> (DeckState, StepView) {
        self.ask(TAG_SP@, name, AfterView::Nothing)
    }

    pub open spec fn create_folder(self, path: Seq<u8>) -> (DeckState, StepView) {
        self.ask(TAG_CF@, path, AfterView::Add(path))
    }

    pub open spec fn remove_icon(self, path: Seq<u8>) -> (DeckState, StepView) {
        self.ask(TAG_DI@, path, AfterView::Prune(path))
    }

    pub open spec fn remove_folder(self, path: Seq<u8>) -> (DeckState, StepView) {
        self.ask(TAG_DF@, path, AfterView::Prune(path))
    }

    /// The index after the device has acknowledged a request. An index that
    /// was never asked for stays unknown.
    pub open spec fn index_after(self, after: AfterView) -> Option<Seq<Seq<u8>>> {
        match self.dirs {
            None => None,
            Some(dirs) => match after {
                AfterView::Nothing => Some(dirs),
                AfterView::Add(path) => Some(extended(dirs, path)),
                AfterView::AddAbove(path) => Some(extended_above(dirs, path)),
                AfterView::Prune(path) => Some(pruned(dirs, path)),
            },
        }
    }

    /// What a frame from the device leads to while `exchange` waits for a
    /// line. `self` is the session without the exchange.
    pub open spec fn on_frame(self, exchange: ExchangeView, tag: Seq<u8>, args: Seq<Seq<u8>>) -> (
        DeckState,
        StepView,
    ) {
        match exchange {
            ExchangeView::Info { then } => match DeviceInfo::reported(tag, args) {
                None => self.fail(Error::Protocol),
                Some(info) => {
                    let known = DeckState { info: Some(info), ..self };
                    match then {
                        None => known.finish(ReplyView::Info(info)),
                        Some(image) => known.push_status(info, image),
                    }
                },
            },
            ExchangeView::Listing => if tag == TAG_LD@ {
                (DeckState { dirs: Some(args), ..self }).finish(ReplyView::Directories(args))
            } else {
                self.fail(Error::Protocol)
            },
            ExchangeView::IconQuery { path } => match announced_size(tag, args) {
                None => self.fail(Error::Protocol),
                Some(size) => self.send(
                    request(TAG_RD@, Seq::empty()),
                    ExchangeView::IconFetch { path, size },
                ),
            },
            ExchangeView::IconFetch { path, size } => self.fail(Error::State),
            ExchangeView::IconOffer { path, icon, payload } => if tag == TAG_RD@ {
                self.send(payload, ExchangeView::IconCommit { path, icon })
            } else {
                self.fail(Error::Protocol)
            },
            ExchangeView::IconCommit { path, icon } => if tag == TAG_OK@ {
                (DeckState {
                    icons: inserted(self.icons, path, icon),
                    dirs: self.index_after(AfterView::AddAbove(path)),
                    ..self
                }).finish(ReplyView::Done)
            } else {
                self.fail(Error::Device)
            },
            ExchangeView::StatusOffer { image, payload } => if tag == TAG_RD@ {
                self.send(payload, ExchangeView::StatusCommit { image })
            } else {
                self.fail(Error::Protocol)
            },
            ExchangeView::StatusCommit { image } => if tag == TAG_OK@ {
                (DeckState { status: Some(image), ..self }).finish(ReplyView::Done)
            } else {
                self.fail(Error::Device)
            },
            ExchangeView::Acknowledge { after } => if tag == TAG_OK@ {
                (DeckState { dirs: self.index_after(after), ..self }).finish(ReplyView::Done)
            } else {
                self.fail(Error::Device)
            },
        }
    }

    /// What an event leads to. `decoded` is what the image decoder made of
    /// the bytes of a payload; it counts only where an icon is being
    /// fetched.
    ///
    /// With no exchange under way every event is refused. A failure of the
    /// port ends the exchange with that failure. An event of another kind
    /// than the one awaited ends it as a misuse. A write that fell short ends
    /// it; a full one is followed by reading the answer. A line that is no
    /// frame ends it as a protocol error; a frame goes to `on_frame`. A
    /// payload that does not decode ends it as an image error; an image is
    /// put into the cache and handed back.
    pub open spec fn resume(self, event: EventView, decoded: Option<Pixels>) -> (
        DeckState,
        StepView,
    ) {
        match self.pending {
            None => self.refuse(),
            Some(pending) => {
                let idle = self.idle();
                match event {
                    EventView::Failed(fault) => idle.fail(Error::Transport(fault)),
                    EventView::Written(n) => match pending.awaited {
                        Awaited::Written(expected) => if n != expected {
                            idle.fail(Error::Transport(TransportFault::ShortWrite))
                        } else {
                            match pending.exchange {
                                ExchangeView::IconFetch { path, size } => idle.wait(
                                    pending.exchange,
                                    Awaited::Payload,
                                    StepView::ReadExact(size),
                                ),
                                _ => idle.wait(pending.exchange, Awaited::Line, StepView::ReadLine),
                            }
                        },
                        _ => idle.fail(Error::State),
                    },
                    EventView::Line(bytes) => match pending.awaited {
                        Awaited::Line => match decoding(bytes) {
                            None => idle.fail(Error::Protocol),
                            Some((tag, args)) => idle.on_frame(pending.exchange, tag, args),
                        },
                        _ => idle.fail(Error::State),
                    },
                    EventView::Payload(bytes) => match (pending.awaited, pending.exchange) {
                        (Awaited::Payload, ExchangeView::IconFetch { path, size }) => match decoded {
                            None => idle.fail(Error::Image),
                            Some(icon) => (DeckState {
                                icons: inserted(idle.icons, path, icon),
                                ..idle
                            }).finish(ReplyView::Icon(icon)),
                        },
                        _ => idle.fail(Error::State),
                    },
                }
            },
        }
    }
}

/// A turn of a run: what happened on the port, and what the image decoder
/// made of it where it was the bytes of an icon.
pub type Turn = (EventView, Option<Pixels>);

/// Where a session ends up that gave `step` and then takes the events of
/// `turns` one after the other. Once the operation has finished, the events
/// that are left are not taken.
pub open spec fn run(state: DeckState, step: StepView, turns: Seq<Turn>) -> (DeckState, StepView)
    decreases turns.len(),
{
    if turns.len() == 0 || step is Finished {
        (state, step)
    } else {
        let next = state.resume(turns.first().0, turns.first().1);
        run(next.0, next.1, turns.drop_first())
    }
}

pub open spec fn succeeded(step: StepView) -> bool {
    step == StepView::Finished(Ok(ReplyView::Done))
}

/// The session is in the middle of writing `icon` at `path`.
pub open spec fn is_writing(s: DeckState, path: Seq<u8>, icon: Pixels) -> bool {
    s.pending matches Some(p) && match p.exchange {
        ExchangeView::IconOffer { path: at, icon: what, payload } => at == path && what == icon,
        ExchangeView::IconCommit { path: at, icon: what } => at == path && what == icon,
        _ => false,
    }
}

proof fn lemma_writing_goes_on(
    s: DeckState,
    step: StepView,
    path: Seq<u8>,
    icon: Pixels,
    turns: Seq<Turn>,
)
    requires
        is_writing(s, path, icon),
        !(step is Finished),
    ensures
        ({
            let end = run(s, step, turns);
            succeeded(end.1) ==> end.0.pending is None && lookup(end.0.icons, path) == Some(icon)
        }),
    decreases turns.len(),
{
    if turns.len() > 0 {
        let next = s.resume(turns.first().0, turns.first().1);
        assert(run(s, step, turns) == run(next.0, next.1, turns.drop_first()));
        if next.1 is Finished {
            if succeeded(next.1) {
                crate::cache::law_table_holds_what_was_put(s.icons, path, icon, path);
            }
        } else {
            assert(is_writing(next.0, path, icon));
            lemma_writing_goes_on(next.0, next.1, path, icon, turns.drop_first());
        }
    }
}

/// An icon that was written is served from the cache: after `set_icon` for a
/// path has succeeded, whatever happened on the port on the way, `get_icon`
/// for that path ends at once with that icon, and nothing is written to the
/// port.
pub proof fn law_written_icon_is_served_from_cache(
    s: DeckState,
    path: Seq<u8>,
    icon: Pixels,
    turns: Seq<Turn>,
)
    requires
        s.pending is None,
    ensures
        ({
            let begun = s.set_icon(path, icon);
            let end = run(begun.0, begun.1, turns);
            succeeded(end.1) ==> end.0.get_icon(path) == (
                end.0,
                StepView::Finished(Ok(ReplyView::Icon(icon))),
            )
        }),
{
    let begun = s.set_icon(path, icon);
    if begun.1 is Finished {
    } else {
        assert(is_writing(begun.0, path, icon));
        lemma_writing_goes_on(begun.0, begun.1, path, icon, turns);
        let end = run(begun.0, begun.1, turns);
        if succeeded(end.1) {
            assert(end.0.idle() == end.0);
        }
    }
}

proof fn lemma_writing_keeps_the_index(
    s: DeckState,
    step: StepView,
    path: Seq<u8>,
    icon: Pixels,
    turns: Seq<Turn>,
)
    requires
        is_writing(s, path, icon),
        !(step is Finished),
    ensures
        ({
            let end = run(s, step, turns);
            succeeded(end.1) ==> end.0.dirs == s.index_after(AfterView::AddAbove(path))
        }),
    decreases turns.len(),
{
    if turns.len() > 0 {
        let next = s.resume(turns.first().0, turns.first().1);
        assert(run(s, step, turns) == run(next.0, next.1, turns.drop_first()));
        if !(next.1 is Finished) {
            assert(is_writing(next.0, path, icon));
            assert(next.0.dirs == s.dirs);
            lemma_writing_keeps_the_index(next.0, next.1, path, icon, turns.drop_first());
        }
    }
}

/// A written icon brings the directories above it into the index: after
/// `set_icon` for a path has succeeded, whatever happened on the port on the
/// way, an index that is known is the old one with the directories above the
/// icon behind it, and an index that was never asked for is still unknown.
/// The path of the icon itself is not put into the index.
pub proof fn law_written_icon_extends_the_index(
    s: DeckState,
    path: Seq<u8>,
    icon: Pixels,
    turns: Seq<Turn>,
)
    requires
        s.pending is None,
    ensures
        ({
            let begun = s.set_icon(path, icon);
            let end = run(begun.0, begun.1, turns);
            succeeded(end.1) ==> end.0.dirs == match s.dirs {
                Some(dirs) => Some(extended_above(dirs, path)),
                None => None,
            }
        }),
{
    let begun = s.set_icon(path, icon);
    if !(begun.1 is Finished) {
        assert(is_writing(begun.0, path, icon));
        lemma_writing_keeps_the_index(begun.0, begun.1, path, icon, turns);
    }
}

/// The session is in the middle of showing `image` on the status bar.
pub open spec fn is_showing(s: DeckState, image: Pixels) -> bool {
    s.pending matches Some(p) && match p.exchange {
        ExchangeView::Info { then } => then == Some(image),
        ExchangeView::StatusOffer { image: what, payload } => what == image && fits_the_bar(
            s,
            image,
        ),
        ExchangeView::StatusCommit { image: what } => what == image && fits_the_bar(s, image),
        _ => false,
    }
}

/// The layout is known, and `image` has the size of the status bar.
pub open spec fn fits_the_bar(s: DeckState, image: Pixels) -> bool {
    s.info matches Some(info) && image.width == info.width && image.height
        == info.status_bar_height
}

/// The status bar shows `image`, as far as any pixel goes.
pub open spec fn is_shown(s: DeckState, image: Pixels) -> bool {
    &&& s.pending is None
    &&& fits_the_bar(s, image)
    &&& s.status matches Some(prior) && patch_of(prior, image) is None
}

proof fn lemma_push_status_settles(s: DeckState, info: DeviceInfo, image: Pixels)
    requires
        s.pending is None,
        s.info == Some(info),
    ensures
        ({
            let next = s.push_status(info, image);
            &&& succeeded(next.1) ==> is_shown(next.0, image)
            &&& !(next.1 is Finished) ==> is_showing(next.0, image)
        }),
{
    assert(s.idle() == s);
}

proof fn lemma_showing_goes_on(s: DeckState, step: StepView, image: Pixels, turns: Seq<Turn>)
    requires
        is_showing(s, image),
        !(step is Finished),
    ensures
        ({
            let end = run(s, step, turns);
            succeeded(end.1) ==> is_shown(end.0, image)
        }),
    decreases turns.len(),
{
    if turns.len() > 0 {
        let next = s.resume(turns.first().0, turns.first().1);
        assert(run(s, step, turns) == run(next.0, next.1, turns.drop_first()));
        let p = s.pending->0;
        match p.exchange {
            ExchangeView::Info { then } => {
                if turns.first().0 is Line && p.awaited == Awaited::Line {
                    let bytes = turns.first().0->Line_0;
                    if decoding(bytes) is Some {
                        let frame = decoding(bytes)->0;
                        let tag = frame.0;
                        let args = frame.1;
                        if DeviceInfo::reported(tag, args) is Some {
                            let info = DeviceInfo::reported(tag, args)->0;
                            let known = DeckState { info: Some(info), ..s.idle() };
                            lemma_push_status_settles(known, info, image);
                        }
                    }
                }
            },
            ExchangeView::StatusCommit { image: what } => {
                crate::raster::law_no_patch_between_equal_images(image);
            },
            _ => {},
        }
        if next.1 is Finished {
        } else {
            assert(is_showing(next.0, image));
            lemma_showing_goes_on(next.0, next.1, image, turns.drop_first());
        }
    }
}

/// The same image twice is sent once: after `set_status` with an image has
/// succeeded, whatever happened on the port on the way and whether or not
/// the layout had to be asked for first, the status bar shows the image, and
/// `set_status` with that image again ends at once, changes nothing, and
/// nothing is written to the port.
pub proof fn law_same_status_twice_is_sent_once(s: DeckState, image: Pixels, turns: Seq<Turn>)
    requires
        s.pending is None,
    ensures
        ({
            let begun = s.set_status(image);
            let end = run(begun.0, begun.1, turns);
            succeeded(end.1) ==> is_shown(end.0, image) && end.0.set_status(image) == (
                end.0,
                StepView::Finished(Ok(ReplyView::Done)),
            )
        }),
{
    let begun = s.set_status(image);
    match s.info {
        Some(info) => {
            lemma_push_status_settles(s, info, image);
        },
        None => {},
    }
    if !(begun.1 is Finished) {
        assert(is_showing(begun.0, image));
        lemma_showing_goes_on(begun.0, begun.1, image, turns);
    }
    let end = run(begun.0, begun.1, turns);
    if succeeded(end.1) {
        assert(is_shown(end.0, image));
        assert(end.0.idle() == end.0);
    }
}

/// The session waits for the device to acknowledge a removal at `path`.
pub open spec fn is_removing(s: DeckState, path: Seq<u8>) -> bool {
    s.pending matches Some(p) && p.exchange == (ExchangeView::Acknowledge {
        after: AfterView::Prune(path),
    })
}

/// Nothing in the index is `path` or lies below it.
pub open spec fn is_clear_of(s: DeckState, path: Seq<u8>) -> bool {
    s.dirs matches Some(dirs) ==> forall|i: int|
        0 <= i < dirs.len() ==> !crate::paths::is_under(#[trigger] dirs[i], path)
}

proof fn lemma_removing_goes_on(s: DeckState, step: StepView, path: Seq<u8>, turns: Seq<Turn>)
    requires
        is_removing(s, path),
        !(step is Finished),
    ensures
        ({
            let end = run(s, step, turns);
            succeeded(end.1) ==> is_clear_of(end.0, path)
        }),
    decreases turns.len(),
{
    if turns.len() > 0 {
        let next = s.resume(turns.first().0, turns.first().1);
        assert(run(s, step, turns) == run(next.0, next.1, turns.drop_first()));
        if next.1 is Finished {
            if succeeded(next.1) && s.dirs is Some {
                crate::paths::law_pruned_index_is_clear(s.dirs->0, path);
            }
        } else {
            assert(is_removing(next.0, path));
            lemma_removing_goes_on(next.0, next.1, path, turns.drop_first());
        }
    }
}

/// A removal prunes the index: after `remove_folder` or `remove_icon` for a
/// path has succeeded, whatever happened on the port on the way, no path in
/// the directory index is that path or lies below it.
pub proof fn law_removal_prunes_the_index(s: DeckState, path: Seq<u8>, turns: Seq<Turn>)
    requires
        s.pending is None,
    ensures
        ({
            let begun = s.remove_folder(path);
            let end = run(begun.0, begun.1, turns);
            succeeded(end.1) ==> is_clear_of(end.0, path)
        }),
        ({
            let begun = s.remove_icon(path);
            let end = run(begun.0, begun.1, turns);
            succeeded(end.1) ==> is_clear_of(end.0, path)
        }),
{
    let begun = s.remove_folder(path);
    assert(is_removing(begun.0, path));
    lemma_removing_goes_on(begun.0, begun.1, path, turns);
    let begun = s.remove_icon(path);
    assert(is_removing(begun.0, path));
    lemma_removing_goes_on(begun.0, begun.1, path, turns);
}

/// Exchanges do not interleave: while one is under way, every operation that
/// would start another is refused, nothing is written to the port for it,
/// and the exchange under way is not disturbed.
pub proof fn law_exchanges_do_not_interleave(s: DeckState, path: Seq<u8>, image: Pixels)
    requires
        s.pending is Some,
    ensures
        s.get_info() == s.refuse(),
        s.get_icon(path) == s.refuse(),
        s.set_icon(path, image) == s.refuse(),
        s.set_status(image) == s.refuse(),
        s.list_directory() == s.refuse(),
        s.set_profile(path) == s.refuse(),
        s.create_folder(path) == s.refuse(),
        s.remove_icon(path) == s.refuse(),
        s.remove_folder(path) == s.refuse(),
        s.refuse() == (s, StepView::Finished(Err(Error::State))),
{
}

/// An event is never taken for an answer: a frame `bc` or `sc` that arrives
/// while an exchange waits for a line ends the exchange with an error, so an
/// operation that succeeds has seen no event among its frames.
pub proof fn law_events_are_no_answers(s: DeckState, line: Seq<u8>, decoded: Option<Pixels>)
    requires
        s.pending is Some,
        decoding(line) matches Some(frame) && (frame.0 == crate::message::TAG_BC@ || frame.0
            == crate::message::TAG_SC@),
    ensures
        s.resume(EventView::Line(line), decoded).1 matches StepView::Finished(Err(_)),
        s.resume(EventView::Line(line), decoded).0.pending is None,
{
    let frame = decoding(line)->0;
    let tag = frame.0;
    assert(tag.len() == 2);
    assert(tag[0] == 0x62 || tag[0] == 0x73);
    assert(tag[1] == 0x63);
    assert(tag != TAG_LI@) by {
        assert(TAG_LI@[1] == 0x69);
    }
    assert(tag != TAG_LD@) by {
        assert(TAG_LD@[1] == 0x64);
    }
    assert(tag != TAG_RD@) by {
        assert(TAG_RD@[1] == 0x64);
    }
    assert(tag != TAG_OK@) by {
        assert(TAG_OK@[1] == 0x6b);
    }
    assert(tag != TAG_RD_ASK@) by {
        assert(TAG_RD_ASK@.len() == 3);
    }
}

/// A table of whole images stays one when a whole image is put into it.
proof fn lemma_inserted_images_are_whole(
    entries: Seq<(Seq<u8>, Pixels)>,
    key: Seq<u8>,
    value: Pixels,
)
    requires
        value.wf(),
        forall|i: int| 0 <= i < entries.len() ==> (#[trigger] entries[i]).1.wf(),
    ensures
        forall|i: int|
            0 <= i < inserted(entries, key, value).len() ==> (#[trigger] inserted(
                entries,
                key,
                value,
            )[i]).1.wf(),
    decreases entries.len(),
{
    if entries.len() > 0 && entries.first().0 != key {
        let rest = entries.drop_first();
        assert forall|i: int| 0 <= i < rest.len() implies (#[trigger] rest[i]).1.wf() by {
            assert(rest[i] == entries[i + 1]);
        }
        lemma_inserted_images_are_whole(rest, key, value);
        let after = inserted(entries, key, value);
        assert forall|i: int| 0 <= i < after.len() implies (#[trigger] after[i]).1.wf() by {
            if i > 0 {
                assert(after[i] == inserted(rest, key, value)[i - 1]);
            } else {
                assert(after[0] == entries[0]);
            }
        }
    }
}

/// The status update leaves a sound session sound.
proof fn lemma_push_status_is_sound(s: DeckState, info: DeviceInfo, image: Pixels)
    requires
        s.wf(),
        s.pending is None,
        s.info == Some(info),
        image.wf(),
    ensures
        s.push_status(info, image).0.wf(),
{
    assert(s.idle() == s);
}

/// A frame from the device leaves a sound session sound.
proof fn lemma_on_frame_is_sound(
    s: DeckState,
    exchange: ExchangeView,
    tag: Seq<u8>,
    args: Seq<Seq<u8>>,
)
    requires
        s.wf(),
        s.pending matches Some(p) && p.exchange == exchange,
    ensures
        s.idle().on_frame(exchange, tag, args).0.wf(),
{
    let idle = s.idle();
    match exchange {
        ExchangeView::Info { then } => {
            crate::device::law_reported_layout_is_exact(tag, args);
            if DeviceInfo::reported(tag, args) is Some && then is Some {
                let info = DeviceInfo::reported(tag, args)->0;
                let known = DeckState { info: Some(info), ..idle };
                lemma_push_status_is_sound(known, info, then->0);
            }
        },
        ExchangeView::IconCommit { path, icon } => {
            lemma_inserted_images_are_whole(idle.icons, path, icon);
        },
        _ => {},
    }
}

/// A session stays sound under every event: whatever happens on the port,
/// the layout that it holds is exact, the images that it holds are whole,
/// and the image on the status bar has the size of the status bar.
pub proof fn law_events_keep_the_session_sound(
    s: DeckState,
    event: EventView,
    decoded: Option<Pixels>,
)
    requires
        s.wf(),
        decoded matches Some(icon) ==> icon.wf(),
    ensures
        s.resume(event, decoded).0.wf(),
{
    if s.pending is Some {
        let p = s.pending->0;
        let idle = s.idle();
        match event {
            EventView::Line(bytes) => {
                if p.awaited == Awaited::Line && decoding(bytes) is Some {
                    let frame = decoding(bytes)->0;
                    lemma_on_frame_is_sound(s, p.exchange, frame.0, frame.1);
                }
            },
            EventView::Payload(bytes) => {
                match p.exchange {
                    ExchangeView::IconFetch { path, size } => {
                        if decoded is Some {
                            lemma_inserted_images_are_whole(idle.icons, path, decoded->0);
                        }
                    },
                    _ => {},
                }
            },
            _ => {},
        }
    }
}

/// A session stays sound under every operation, and a fresh one is sound.
pub proof fn law_operations_keep_the_session_sound(s: DeckState, path: Seq<u8>, image: Pixels)
    requires
        s.wf(),
        image.wf(),
    ensures
        DeckState::fresh().wf(),
        s.get_info().0.wf(),
        s.get_icon(path).0.wf(),
        s.set_icon(path, image).0.wf(),
        s.set_status(image).0.wf(),
        s.list_directory().0.wf(),
        s.set_profile(path).0.wf(),
        s.create_folder(path).0.wf(),
        s.remove_icon(path).0.wf(),
        s.remove_folder(path).0.wf(),
{
    if s.pending is None {
        assert(s.idle() == s);
        if s.info is Some {
            lemma_push_status_is_sound(s, s.info->0, image);
        }
    }
}

} // verus!
