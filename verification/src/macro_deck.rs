//! The device session and the table of handlers for what the user does on
//! the device.

use vstd::prelude::*;
use crate::bytes::{copy_range, format_decimal, numeral_u32, parse_u32, views, NEWLINE};
use crate::cache::{entry_views, find, find_icon, inserted, keyed, lookup, store, store_icon};
use crate::codec::{decode_image, encode_jpeg};
use crate::device::DeviceInfo;
use crate::error::{Error, TransportFault};
use crate::message::{
    decoding, Message, TAG_BC, TAG_CF, TAG_DF, TAG_DI, TAG_LD, TAG_LI, TAG_OK, TAG_RD,
    TAG_RD_ASK, TAG_RI, TAG_SC, TAG_SP, TAG_SS, TAG_WI,
};
use crate::paths::{add_ancestors, add_path, copy_paths, remove_path};
use crate::protocol::{
    image_view, request, After, Awaited, DeckState, Event, Exchange, Pending, Reply, Step,
};
use crate::raster::{find_patch, Image, Pixels};

verus! {

/// A line from the device, as the reader sees it.
#[derive(Debug)]
pub enum Incoming {
    /// No frame, or an event without what it needs.
    Malformed,
    /// The button at this path was clicked.
    ButtonClick(Vec<u8>),
    /// The status bar was clicked at this abscissa.
    StatusClick(u32),
    /// Any other frame: the answer to a request.
    Response(Message),
}

pub enum IncomingView {
    Malformed,
    ButtonClick(Seq<u8>),
    StatusClick(u32),
    Response(Seq<u8>, Seq<Seq<u8>>),
}

impl View for Incoming {
    type V = IncomingView;

    open spec fn view(&self) -> IncomingView {
        match *self {
            Incoming::Malformed => IncomingView::Malformed,
            Incoming::ButtonClick(path) => IncomingView::ButtonClick(path@),
            Incoming::StatusClick(x) => IncomingView::StatusClick(x),
            Incoming::Response(frame) => IncomingView::Response(frame.tag(), frame.args()),
        }
    }
}

/// What a line from the device is: a frame `bc` with a path is a click on a
/// button, a frame `sc` with a number a click on the status bar, any other
/// frame an answer.
pub open spec fn classified(line: Seq<u8>) -> IncomingView {
    match decoding(line) {
        None => IncomingView::Malformed,
        Some((tag, args)) => if tag == TAG_BC@ {
            if args.len() >= 1 {
                IncomingView::ButtonClick(args[0])
            } else {
                IncomingView::Malformed
            }
        } else if tag == TAG_SC@ {
            if args.len() >= 1 && numeral_u32(args[0]) is Some {
                IncomingView::StatusClick(numeral_u32(args[0])->0)
            } else {
                IncomingView::Malformed
            }
        } else {
            IncomingView::Response(tag, args)
        },
    }
}

pub fn classify(line: &[u8]) -> (r: Incoming)
    ensures
        r@ == classified(line@),
{
    match Message::decode(line) {
        None => Incoming::Malformed,
        Some(frame) => {
            if frame.has_tag(TAG_BC.as_slice()) {
                if frame.data.len() >= 1 {
                    let path: Vec<u8> = copy_range(frame.data[0].as_slice(), 0, frame.data[0].len());
                    assert(path@ =~= frame.args()[0]);
                    Incoming::ButtonClick(path)
                } else {
                    Incoming::Malformed
                }
            } else if frame.has_tag(TAG_SC.as_slice()) {
                if frame.data.len() >= 1 {
                    match parse_u32(frame.data[0].as_slice()) {
                        Some(x) => Incoming::StatusClick(x),
                        None => Incoming::Malformed,
                    }
                } else {
                    Incoming::Malformed
                }
            } else {
                Incoming::Response(frame)
            }
        },
    }
}

/// The handler that an event from the device goes to.
pub enum Dispatch<'a, B, S> {
    Nothing,
    /// Call this handler of a button.
    Button(&'a B),
    /// Call this handler of the status bar with this abscissa.
    Status(&'a S, u32),
}

/// The handlers of a session.
pub struct Handlers<B, S> {
    pub buttons: Seq<(Seq<u8>, B)>,
    pub status: Option<S>,
    /// Whether events are handed on.
    pub started: bool,
}

impl<B, S> Handlers<B, S> {
    /// Where a line from the device goes: before the session was started,
    /// nowhere; a click on a button to the handler registered for its path; a
    /// click on the status bar to the status handler; anything else nowhere.
    pub open spec fn route(self, line: Seq<u8>) -> Dispatch<'static, B, S> {
        if !self.started {
            Dispatch::Nothing
        } else {
            match classified(line) {
                IncomingView::ButtonClick(path) => match lookup(self.buttons, path) {
                    Some(handler) => Dispatch::Button(&handler),
                    None => Dispatch::Nothing,
                },
                IncomingView::StatusClick(x) => match self.status {
                    Some(handler) => Dispatch::Status(&handler, x),
                    None => Dispatch::Nothing,
                },
                _ => Dispatch::Nothing,
            }
        }
    }
}

/// The bytes of a request: the frame and a line end.
pub fn request_bytes(tag: &[u8], args: Vec<Vec<u8>>) -> (out: Vec<u8>)
    ensures
        out@ == request(tag@, views(args@)),
{
    let frame: Message = Message::new(copy_range(tag, 0, tag.len()), args);
    assert(frame.tag() =~= tag@);
    let mut out: Vec<u8> = frame.encode();
    out.push(NEWLINE);
    out
}

fn no_args() -> (args: Vec<Vec<u8>>)
    ensures
        views(args@) == Seq::<Seq<u8>>::empty(),
{
    let args: Vec<Vec<u8>> = Vec::new();
    assert(views(args@) =~= Seq::<Seq<u8>>::empty());
    args
}

fn one_arg(a: &[u8]) -> (args: Vec<Vec<u8>>)
    ensures
        views(args@) == seq![a@],
{
    let mut args: Vec<Vec<u8>> = Vec::new();
    let copy: Vec<u8> = copy_range(a, 0, a.len());
    assert(copy@ =~= a@);
    args.push(copy);
    assert(views(args@) =~= seq![a@]);
    args
}

/// A session with a macro deck, and the handlers for its events.
///
/// The session holds what is known of the device: its layout, the icons that
/// were written or read, the directories, and the image on the status bar.
/// `B` is the type of a handler of a button, `S` that of the handler of the
/// status bar; the session keeps them and never calls them.
pub struct MacroDeck<B, S> {
    info: Option<DeviceInfo>,
    icons: Vec<(Vec<u8>, Image)>,
    dirs: Option<Vec<Vec<u8>>>,
    status: Option<Image>,
    pending: Option<Pending>,
    handlers: Vec<(Vec<u8>, B)>,
    status_handler: Option<S>,
    started: bool,
}

pub open spec fn paths_view(dirs: Option<Vec<Vec<u8>>>) -> Option<Seq<Seq<u8>>> {
    match dirs {
        Some(d) => Some(views(d@)),
        None => None,
    }
}

pub open spec fn pending_view(pending: Option<Pending>) -> Option<crate::protocol::PendingView> {
    match pending {
        Some(p) => Some(p@),
        None => None,
    }
}

impl<B, S> View for MacroDeck<B, S> {
    type V = DeckState;

    closed spec fn view(&self) -> DeckState {
        DeckState {
            info: self.info,
            icons: entry_views(self.icons@),
            dirs: paths_view(self.dirs),
            status: image_view(self.status),
            pending: pending_view(self.pending),
        }
    }
}

impl<B, S> MacroDeck<B, S> {
    /// The handlers that are registered, and whether events are handed on.
    pub closed spec fn handlers(&self) -> Handlers<B, S> {
        Handlers {
            buttons: keyed(self.handlers@),
            status: self.status_handler,
            started: self.started,
        }
    }

    /// A session that knows nothing yet and has no handlers.
    pub fn new() -> (deck: Self)
        ensures
            deck@ == DeckState::fresh(),
            deck.handlers() == (Handlers::<B, S> {
                buttons: Seq::empty(),
                status: None,
                started: false,
            }),
    {
        let deck = MacroDeck {
            info: None,
            icons: Vec::new(),
            dirs: None,
            status: None,
            pending: None,
            handlers: Vec::new(),
            status_handler: None,
            started: false,
        };
        assert(entry_views(deck.icons@) =~= Seq::<(Seq<u8>, Pixels)>::empty());
        assert(keyed(deck.handlers@) =~= Seq::<(Seq<u8>, B)>::empty());
        deck
    }

    /// Whether an exchange with the device is under way.
    pub fn is_busy(&self) -> (r: bool)
        ensures
            r == self@.pending is Some,
    {
        self.pending.is_some()
    }

    fn send(&mut self, bytes: Vec<u8>, exchange: Exchange) -> (step: Step)
        ensures
            (final(self)@, step@) == old(self)@.send(bytes@, exchange@),
            final(self).handlers() == old(self).handlers(),
    {
        let awaited: Awaited = Awaited::Written(bytes.len());
        self.pending = Some(Pending { exchange, awaited });
        Step::Write(bytes)
    }

    /// The layout of the device. It is asked for once and then remembered.
    pub fn get_info(&mut self) -> (step: Step)
        ensures
            (final(self)@, step@) == old(self)@.get_info(),
            final(self).handlers() == old(self).handlers(),
    {
        if self.pending.is_some() {
            return Step::Finished(Err(Error::State));
        }
        match self.info {
            Some(info) => Step::Finished(Ok(Reply::Info(info))),
            None => self.send(
                request_bytes(TAG_LI.as_slice(), no_args()),
                Exchange::Info { then: None },
            ),
        }
    }

    /// The icon at `path`: the one in the cache, or the one that the device
    /// holds, which then goes into the cache.
    pub fn get_icon(&mut self, path: &[u8]) -> (step: Step)
        ensures
            (final(self)@, step@) == old(self)@.get_icon(path@),
            final(self).handlers() == old(self).handlers(),
    {
        if self.pending.is_some() {
            return Step::Finished(Err(Error::State));
        }
        match find_icon(&self.icons, path) {
            Some(icon) => {
                return Step::Finished(Ok(Reply::Icon(icon.duplicate())));
            },
            None => {},
        }
        let key: Vec<u8> = copy_range(path, 0, path.len());
        assert(key@ =~= path@);
        self.send(request_bytes(TAG_RI.as_slice(), one_arg(path)), Exchange::IconQuery { path: key })
    }

    /// Writes `icon` to the device at `path`, as a JPEG file. Once the device
    /// has acknowledged it, the icon is in the cache and the directories
    /// above it are in the directory index.
    pub fn set_icon(&mut self, path: &[u8], icon: Image) -> (step: Step)
        ensures
            (final(self)@, step@) == old(self)@.set_icon(path@, icon@),
            final(self).handlers() == old(self).handlers(),
    {
        if self.pending.is_some() {
            return Step::Finished(Err(Error::State));
        }
        match encode_jpeg(&icon) {
            Err(_) => Step::Finished(Err(Error::Image)),
            Ok(file) => {
                let key: Vec<u8> = copy_range(path, 0, path.len());
                assert(key@ =~= path@);
                let mut args: Vec<Vec<u8>> = Vec::new();
                let name: Vec<u8> = copy_range(path, 0, path.len());
                let size: Vec<u8> = format_decimal(file.len() as u64);
                args.push(name);
                args.push(size);
                assert(views(args@) =~= seq![path@, size@]);
                self.send(
                    request_bytes(TAG_WI.as_slice(), args),
                    Exchange::IconOffer { path: key, icon, payload: file },
                )
            },
        }
    }

    fn offer_status(&mut self, image: Image, x: u32, y: u32, patch: &Image) -> (step: Step)
        requires
            old(self)@.pending is None,
        ensures
            (final(self)@, step@) == old(self)@.offer_status(image@, x as int, y as int, patch@),
            final(self).handlers() == old(self).handlers(),
    {
        match encode_jpeg(patch) {
            Err(_) => Step::Finished(Err(Error::Image)),
            Ok(file) => {
                let mut args: Vec<Vec<u8>> = Vec::new();
                let left: Vec<u8> = format_decimal(x as u64);
                let top: Vec<u8> = format_decimal(y as u64);
                let size: Vec<u8> = format_decimal(file.len() as u64);
                args.push(left);
                args.push(top);
                args.push(size);
                assert(views(args@) =~= seq![left@, top@, size@]);
                self.send(
                    request_bytes(TAG_SS.as_slice(), args),
                    Exchange::StatusOffer { image, payload: file },
                )
            },
        }
    }

    fn push_status(&mut self, info: DeviceInfo, image: Image) -> (step: Step)
        requires
            old(self)@.pending is None,
        ensures
            (final(self)@, step@) == old(self)@.push_status(info, image@),
            final(self).handlers() == old(self).handlers(),
    {
        if image.width() != info.width || image.height() != info.status_bar_height {
            return Step::Finished(Err(Error::Image));
        }
        let found: Option<Option<(u32, u32, Image)>> = match &self.status {
            None => None,
            Some(prior) => Some(find_patch(prior, &image)),
        };
        match found {
            None => {
                let whole: Image = image.duplicate();
                self.offer_status(image, 0, 0, &whole)
            },
            Some(None) => Step::Finished(Ok(Reply::Done)),
            Some(Some((x, y, patch))) => self.offer_status(image, x, y, &patch),
        }
    }

    /// Shows `image` on the status bar. Only the rectangle in which it
    /// differs from what the bar shows is sent, and nothing at all where
    /// there is no difference. The image counts as shown once the device has
    /// acknowledged it.
    pub fn set_status(&mut self, image: Image) -> (step: Step)
        ensures
            (final(self)@, step@) == old(self)@.set_status(image@),
            final(self).handlers() == old(self).handlers(),
    {
        if self.pending.is_some() {
            return Step::Finished(Err(Error::State));
        }
        match self.info {
            Some(info) => self.push_status(info, image),
            None => self.send(
                request_bytes(TAG_LI.as_slice(), no_args()),
                Exchange::Info { then: Some(image) },
            ),
        }
    }

    /// The image on the status bar. Before any was set, that is an error of
    /// state.
    pub fn get_status(&self) -> (r: Result<Image, Error>)
        ensures
            match r {
                Ok(image) => self@.status == Some(image@),
                Err(e) => e == Error::State && self@.status is None,
            },
    {
        match &self.status {
            Some(image) => Ok(image.duplicate()),
            None => Err(Error::State),
        }
    }

    /// The directories on the device. They are asked for once; after that
    /// the session keeps the list itself.
    pub fn list_directory(&mut self) -> (step: Step)
        ensures
            (final(self)@, step@) == old(self)@.list_directory(),
            final(self).handlers() == old(self).handlers(),
    {
        if self.pending.is_some() {
            return Step::Finished(Err(Error::State));
        }
        match &self.dirs {
            Some(dirs) => {
                return Step::Finished(Ok(Reply::Directories(copy_paths(dirs))));
            },
            None => {},
        }
        self.send(request_bytes(TAG_LD.as_slice(), no_args()), Exchange::Listing)
    }

    fn ask(&mut self, tag: &[u8], arg: &[u8], after: After) -> (step: Step)
        ensures
            (final(self)@, step@) == old(self)@.ask(tag@, arg@, after@),
            final(self).handlers() == old(self).handlers(),
    {
        if self.pending.is_some() {
            return Step::Finished(Err(Error::State));
        }
        self.send(request_bytes(tag, one_arg(arg)), Exchange::Acknowledge { after })
    }

    pub fn set_profile(&mut self, profile_name: &[u8]) -> (step: Step)
        ensures
            (final(self)@, step@) == old(self)@.set_profile(profile_name@),
            final(self).handlers() == old(self).handlers(),
    {
        self.ask(TAG_SP.as_slice(), profile_name, After::Nothing)
    }

    /// Creates a folder. Once the device has acknowledged it, the folder and
    /// the directories above it are in the directory index.
    pub fn create_folder(&mut self, path: &[u8]) -> (step: Step)
        ensures
            (final(self)@, step@) == old(self)@.create_folder(path@),
            final(self).handlers() == old(self).handlers(),
    {
        let key: Vec<u8> = copy_range(path, 0, path.len());
        assert(key@ =~= path@);
        self.ask(TAG_CF.as_slice(), path, After::Add(key))
    }

    /// Removes an icon. Once the device has acknowledged it, nothing at or
    /// below the path is left in the directory index.
    pub fn remove_icon(&mut self, icon_path: &[u8]) -> (step: Step)
        ensures
            (final(self)@, step@) == old(self)@.remove_icon(icon_path@),
            final(self).handlers() == old(self).handlers(),
    {
        let key: Vec<u8> = copy_range(icon_path, 0, icon_path.len());
        assert(key@ =~= icon_path@);
        self.ask(TAG_DI.as_slice(), icon_path, After::Prune(key))
    }

    /// Removes a folder. Once the device has acknowledged it, nothing at or
    /// below the path is left in the directory index.
    pub fn remove_folder(&mut self, folder_path: &[u8]) -> (step: Step)
        ensures
            (final(self)@, step@) == old(self)@.remove_folder(folder_path@),
            final(self).handlers() == old(self).handlers(),
    {
        let key: Vec<u8> = copy_range(folder_path, 0, folder_path.len());
        assert(key@ =~= folder_path@);
        self.ask(TAG_DF.as_slice(), folder_path, After::Prune(key))
    }

    fn update_index(&mut self, after: After)
        ensures
            final(self)@ == (DeckState { dirs: old(self)@.index_after(after@), ..old(self)@ }),
            final(self).handlers() == old(self).handlers(),
    {
        match &mut self.dirs {
            None => {},
            Some(dirs) => match after {
                After::Nothing => {},
                After::Add(path) => {
                    add_path(dirs, path.as_slice());
                },
                After::AddAbove(path) => {
                    add_ancestors(dirs, path.as_slice());
                },
                After::Prune(path) => {
                    remove_path(dirs, path.as_slice());
                },
            },
        }
    }

    fn on_frame(&mut self, exchange: Exchange, frame: Message) -> (step: Step)
        requires
            old(self)@.pending is None,
        ensures
            (final(self)@, step@) == old(self)@.on_frame(exchange@, frame.tag(), frame.args()),
            final(self).handlers() == old(self).handlers(),
    {
        match exchange {
            Exchange::Info { then } => match DeviceInfo::from_response(&frame) {
                Err(_) => Step::Finished(Err(Error::Protocol)),
                Ok(info) => {
                    self.info = Some(info);
                    match then {
                        None => Step::Finished(Ok(Reply::Info(info))),
                        Some(image) => self.push_status(info, image),
                    }
                },
            },
            Exchange::Listing => {
                if frame.has_tag(TAG_LD.as_slice()) {
                    self.dirs = Some(copy_paths(&frame.data));
                    Step::Finished(Ok(Reply::Directories(frame.data)))
                } else {
                    Step::Finished(Err(Error::Protocol))
                }
            },
            Exchange::IconQuery { path } => {
                let size: Option<u32> = if frame.has_tag(TAG_RD_ASK.as_slice()) && frame.data.len()
                    >= 1 {
                    parse_u32(frame.data[0].as_slice())
                } else {
                    None
                };
                match size {
                    None => Step::Finished(Err(Error::Protocol)),
                    Some(size) => self.send(
                        request_bytes(TAG_RD.as_slice(), no_args()),
                        Exchange::IconFetch { path, size },
                    ),
                }
            },
            Exchange::IconFetch { path, size } => Step::Finished(Err(Error::State)),
            Exchange::IconOffer { path, icon, payload } => {
                if frame.has_tag(TAG_RD.as_slice()) {
                    self.send(payload, Exchange::IconCommit { path, icon })
                } else {
                    Step::Finished(Err(Error::Protocol))
                }
            },
            Exchange::IconCommit { path, icon } => {
                if frame.has_tag(TAG_OK.as_slice()) {
                    let key: Vec<u8> = copy_range(path.as_slice(), 0, path.len());
                    assert(key@ =~= path@);
                    store_icon(&mut self.icons, key, icon);
                    self.update_index(After::AddAbove(path));
                    Step::Finished(Ok(Reply::Done))
                } else {
                    Step::Finished(Err(Error::Device))
                }
            },
            Exchange::StatusOffer { image, payload } => {
                if frame.has_tag(TAG_RD.as_slice()) {
                    self.send(payload, Exchange::StatusCommit { image })
                } else {
                    Step::Finished(Err(Error::Protocol))
                }
            },
            Exchange::StatusCommit { image } => {
                if frame.has_tag(TAG_OK.as_slice()) {
                    self.status = Some(image);
                    Step::Finished(Ok(Reply::Done))
                } else {
                    Step::Finished(Err(Error::Device))
                }
            },
            Exchange::Acknowledge { after } => {
                if frame.has_tag(TAG_OK.as_slice()) {
                    self.update_index(after);
                    Step::Finished(Ok(Reply::Done))
                } else {
                    Step::Finished(Err(Error::Device))
                }
            },
        }
    }

    /// Goes on with the exchange under way, given what happened on the port
    /// and, for the bytes of an icon, what the decoder made of them.
    pub fn resume_with(&mut self, event: Event, decoded: Option<Image>) -> (step: Step)
        ensures
            (final(self)@, step@) == old(self)@.resume(event@, image_view(decoded)),
            final(self).handlers() == old(self).handlers(),
    {
        let pending: Pending = match self.pending.take() {
            None => {
                return Step::Finished(Err(Error::State));
            },
            Some(p) => p,
        };
        let exchange: Exchange = pending.exchange;
        let awaited: Awaited = pending.awaited;
        match event {
            Event::Failed(fault) => Step::Finished(Err(Error::Transport(fault))),
            Event::Written(n) => match awaited {
                Awaited::Written(expected) => {
                    if n != expected {
                        Step::Finished(Err(Error::Transport(TransportFault::ShortWrite)))
                    } else {
                        match exchange {
                            Exchange::IconFetch { path, size } => {
                                self.pending = Some(
                                    Pending {
                                        exchange: Exchange::IconFetch { path, size },
                                        awaited: Awaited::Payload,
                                    },
                                );
                                Step::ReadExact(size)
                            },
                            other => {
                                self.pending = Some(
                                    Pending { exchange: other, awaited: Awaited::Line },
                                );
                                Step::ReadLine
                            },
                        }
                    }
                },
                _ => Step::Finished(Err(Error::State)),
            },
            Event::Line(bytes) => match awaited {
                Awaited::Line => match Message::decode(bytes.as_slice()) {
                    None => Step::Finished(Err(Error::Protocol)),
                    Some(frame) => self.on_frame(exchange, frame),
                },
                _ => Step::Finished(Err(Error::State)),
            },
            Event::Payload(bytes) => match awaited {
                Awaited::Payload => match exchange {
                    Exchange::IconFetch { path, size } => match decoded {
                        None => Step::Finished(Err(Error::Image)),
                        Some(icon) => {
                            let copy: Image = icon.duplicate();
                            store_icon(&mut self.icons, path, icon);
                            Step::Finished(Ok(Reply::Icon(copy)))
                        },
                    },
                    _ => Step::Finished(Err(Error::State)),
                },
                _ => Step::Finished(Err(Error::State)),
            },
        }
    }

    /// Goes on with the exchange under way, given what happened on the port.
    /// The bytes of an icon are decoded here; what the decoder makes of them
    /// is its own matter, and the session goes on as `resume_with` says for
    /// whatever came of it.
    pub fn resume(&mut self, event: Event) -> (step: Step)
        ensures
            exists|decoded: Option<Pixels>|
                (decoded matches Some(p) ==> p.wf()) && (final(self)@, step@) == #[trigger] old(
                    self,
                )@.resume(event@, decoded),
            final(self).handlers() == old(self).handlers(),
    {
        let fetching: bool = match &self.pending {
            Some(p) => match p.awaited {
                Awaited::Payload => true,
                _ => false,
            },
            None => false,
        };
        let decoded: Option<Image> = match &event {
            Event::Payload(bytes) => if fetching {
                match decode_image(bytes.as_slice()) {
                    Ok(image) => Some(image),
                    Err(_) => None,
                }
            } else {
                None
            },
            _ => None,
        };
        let ghost witness = image_view(decoded);
        let step: Step = self.resume_with(event, decoded);
        assert((self@, step@) == old(self)@.resume(event@, witness));
        step
    }

    /// Registers `handler` for the button at `button_path`, in the place of
    /// the handler that was registered for it before, if there was one.
    pub fn register_handler(&mut self, button_path: &[u8], handler: B)
        ensures
            final(self)@ == old(self)@,
            final(self).handlers() == (Handlers {
                buttons: inserted(old(self).handlers().buttons, button_path@, handler),
                ..old(self).handlers()
            }),
    {
        let key: Vec<u8> = copy_range(button_path, 0, button_path.len());
        assert(key@ =~= button_path@);
        store(&mut self.handlers, key, handler);
    }

    /// Registers the handler for clicks on the status bar, in the place of
    /// the one before.
    pub fn register_status_handler(&mut self, handler: S)
        ensures
            final(self)@ == old(self)@,
            final(self).handlers() == (Handlers {
                status: Some(handler),
                ..old(self).handlers()
            }),
    {
        self.status_handler = Some(handler);
    }

    /// From now on events from the device are handed on to the handlers.
    pub fn start(&mut self)
        ensures
            final(self)@ == old(self)@,
            final(self).handlers() == (Handlers { started: true, ..old(self).handlers() }),
    {
        self.started = true;
    }

    /// The handler that a line from the device goes to.
    pub fn dispatch<'a>(&'a self, line: &[u8]) -> (r: Dispatch<'a, B, S>)
        ensures
            r == self.handlers().route(line@),
    {
        if !self.started {
            return Dispatch::Nothing;
        }
        match classify(line) {
            Incoming::ButtonClick(path) => match find(&self.handlers, path.as_slice()) {
                Some(handler) => Dispatch::Button(handler),
                None => Dispatch::Nothing,
            },
            Incoming::StatusClick(x) => match &self.status_handler {
                Some(handler) => Dispatch::Status(handler, x),
                None => Dispatch::Nothing,
            },
            _ => Dispatch::Nothing,
        }
    }
}

} // verus!
