//! The flash pipeline: one picture for each directory of buttons, with the
//! icon of every button at its place in the grid, and then the device wiped
//! and the pictures written to it.

use vstd::prelude::*;
use crate::bytes::{
    copy_range, decimal_digits, numeral_u32, parse_u32, same_bytes, views, SLASH,
};
use crate::codec::{base64_decoding, decode_base64, decode_image, jpeg_of, resize};
use crate::message::{TAG_DF, TAG_WI};
use crate::device::DeviceInfo;
use crate::error::Error;
use crate::macro_deck::MacroDeck;
use crate::models::{text_bytes, Config};
use crate::paths::{contains_path, with_all};
use crate::protocol::{request, DeckState, Event, Reply, ReplyView, Step, StepView};
use crate::raster::{
    law_pasted_tile_lies_at_its_place, law_solid_image_is_one_colour, solid, Image, Pixels,
};

verus! {

/// `/aio.jpg`: the name of the picture of a directory, behind the directory.
pub const AIO_NAME: [u8; 8] = [0x2f, 0x61, 0x69, 0x6f, 0x2e, 0x6a, 0x70, 0x67];

/// A button that the configuration places: the directory, the position in
/// it, and the icon as base64 text.
#[derive(Debug)]
pub struct Placed {
    pub dir: Vec<u8>,
    pub index: u32,
    pub icon: Vec<u8>,
}

pub struct PlacedView {
    pub dir: Seq<u8>,
    pub index: u32,
    pub icon: Seq<u8>,
}

impl View for Placed {
    type V = PlacedView;

    open spec fn view(&self) -> PlacedView {
        PlacedView { dir: self.dir@, index: self.index, icon: self.icon@ }
    }
}

pub open spec fn placed_views(v: Seq<Placed>) -> Seq<PlacedView> {
    Seq::new(v.len(), |i: int| v[i]@)
}

pub open spec fn tile_views(v: Seq<Option<Image>>) -> Seq<Option<Pixels>> {
    Seq::new(
        v.len(),
        |i: int|
            match v[i] {
                Some(t) => Some(t@),
                None => None,
            },
    )
}

pub open spec fn upload_views(v: Seq<(Vec<u8>, Image)>) -> Seq<(Seq<u8>, Pixels)> {
    Seq::new(v.len(), |i: int| (v[i].0@, v[i].1@))
}

/// Where the last slash among the first `n` bytes of `key` stands.
pub open spec fn last_slash(key: Seq<u8>, n: int) -> Option<int>
    decreases n,
{
    if n <= 0 {
        None
    } else if key[n - 1] == SLASH {
        Some(n - 1)
    } else {
        last_slash(key, n - 1)
    }
}

/// The directory of a button's path: what stands before its last slash; the
/// root where that is nothing; and nothing where the path has no slash.
pub open spec fn directory_of(key: Seq<u8>) -> Seq<u8> {
    match last_slash(key, key.len() as int) {
        None => Seq::empty(),
        Some(i) => if i == 0 {
            seq![SLASH]
        } else {
            key.take(i)
        },
    }
}

/// The last component of a button's path: what stands behind its last slash.
pub open spec fn leaf_of(key: Seq<u8>) -> Seq<u8> {
    match last_slash(key, key.len() as int) {
        None => key,
        Some(i) => key.skip(i + 1),
    }
}

/// The buttons of a configuration that have an icon and whose path ends with
/// a position, in their order. The others are passed over.
pub open spec fn placed(entries: Seq<(Seq<u8>, Option<Seq<u8>>)>) -> Seq<PlacedView>
    decreases entries.len(),
{
    if entries.len() == 0 {
        Seq::empty()
    } else {
        let rest = placed(entries.drop_last());
        let last = entries.last();
        match (last.1, numeral_u32(leaf_of(last.0))) {
            (Some(icon), Some(index)) => rest.push(
                PlacedView { dir: directory_of(last.0), index, icon },
            ),
            _ => rest,
        }
    }
}

pub open spec fn dirs_of(placed: Seq<PlacedView>) -> Seq<Seq<u8>> {
    Seq::new(placed.len(), |i: int| placed[i].dir)
}

/// The directories that have a button, each once, in the order in which
/// they first occur.
pub open spec fn directories(placed: Seq<PlacedView>) -> Seq<Seq<u8>> {
    with_all(Seq::empty(), dirs_of(placed))
}

/// `tiles` are the tiles of the buttons `placed` for buttons of `size` by
/// `size` pixels: there is a place for each button, in the order of the
/// buttons, and a tile that stands at its place is whole, has that size, and
/// comes of an icon that is base64 text.
pub open spec fn are_tiles_of(tiles: Seq<Option<Pixels>>, placed: Seq<PlacedView>, size: u32)
    -> bool {
    &&& tiles.len() == placed.len()
    &&& forall|i: int|
        0 <= i < tiles.len() ==> ((#[trigger] tiles[i]) matches Some(tile) ==> tile.wf()
            && tile.width == size && tile.height == size && base64_decoding(placed[i].icon)
            is Some)
}

/// The top left corner of the button at position `index`: the positions run
/// along the rows, and from one button to the next it is the size of a
/// button and a gap.
pub open spec fn cell(info: DeviceInfo, index: u32) -> Option<(int, int)> {
    if info.buttons_per_row == 0 {
        None
    } else {
        let pitch = info.button_size + info.gap_size;
        Some(
            (
                (index % info.buttons_per_row) * pitch,
                (index / info.buttons_per_row) * pitch,
            ),
        )
    }
}

/// `canvas` with the tiles of the first `n` buttons that lie in `dir` laid
/// over it, each at the cell of its position. The tile of a button stands
/// at the place of the button in `tiles`. A button without a tile, or whose
/// tile does not fit on the canvas at its cell, leaves no trace.
pub open spec fn composed(
    canvas: Pixels,
    info: DeviceInfo,
    dir: Seq<u8>,
    placed: Seq<PlacedView>,
    tiles: Seq<Option<Pixels>>,
    n: int,
) -> Pixels
    decreases n,
{
    if n <= 0 {
        canvas
    } else {
        let before = composed(canvas, info, dir, placed, tiles, n - 1);
        let tile = if n - 1 < tiles.len() {
            tiles[n - 1]
        } else {
            None
        };
        match (tile, cell(info, placed[n - 1].index)) {
            (Some(tile), Some((x, y))) => if placed[n - 1].dir == dir && before.fits(tile, x, y) {
                before.pasted(tile, x, y)
            } else {
                before
            },
            _ => before,
        }
    }
}

/// The canvas before anything is laid over it: black, and opaque.
pub open spec fn blank(width: u32, height: u32) -> Pixels {
    Pixels {
        width: width as nat,
        height: height as nat,
        data: solid(width as nat * height as nat, 0, 0, 0, 255),
    }
}

/// What is written to the device for the first `n` directories: for each,
/// the path of its picture and the picture.
pub open spec fn uploads(
    width: u32,
    height: u32,
    info: DeviceInfo,
    placed: Seq<PlacedView>,
    tiles: Seq<Option<Pixels>>,
    n: int,
) -> Seq<(Seq<u8>, Pixels)>
    decreases n,
{
    if n <= 0 {
        Seq::empty()
    } else {
        let dir = directories(placed)[n - 1];
        uploads(width, height, info, placed, tiles, n - 1).push(
            (
                dir + AIO_NAME@,
                composed(blank(width, height), info, dir, placed, tiles, placed.len() as int),
            ),
        )
    }
}

/// The pictures for a device with the layout `info`: one for each directory,
/// as wide as the display and as high as the rows of buttons. An error where
/// there is not one tile, or none, for each button, where the layout leaves
/// no room for the rows, or where the canvas does not fit in memory.
pub open spec fn planned(info: DeviceInfo, placed: Seq<PlacedView>, tiles: Seq<Option<Pixels>>)
    -> Result<Seq<(Seq<u8>, Pixels)>, Error> {
    if tiles.len() != placed.len() {
        Err(Error::State)
    } else {
        match info.canvas() {
            None => Err(Error::Image),
            Some((width, height)) => if 4 * width * height > usize::MAX {
                Err(Error::Image)
            } else {
                Ok(uploads(width, height, info, placed, tiles, directories(placed).len() as int))
            },
        }
    }
}

/// Where the last slash of `key` stands.
pub fn find_last_slash(key: &[u8]) -> (r: Option<usize>)
    ensures
        match r {
            Some(i) => last_slash(key@, key@.len() as int) == Some(i as int) && i < key@.len()
                && key@[i as int] == SLASH && key@.len() <= usize::MAX,
            None => last_slash(key@, key@.len() as int) is None,
        },
{
    let mut n: usize = key.len();
    while n > 0
        invariant
            n <= key@.len(),
            last_slash(key@, key@.len() as int) == last_slash(key@, n as int),
        decreases n,
    {
        if key[n - 1] == SLASH {
            return Some(n - 1);
        }
        n -= 1;
    }
    None
}

/// The buttons of the configuration that can be placed.
pub fn place_buttons(config: &Config) -> (r: Vec<Placed>)
    ensures
        placed_views(r@) == placed(config.button_icons()),
{
    let mut out: Vec<Placed> = Vec::new();
    let ghost entries = config.button_icons();
    assert(placed_views(out@) =~= Seq::<PlacedView>::empty());
    match &config.buttons {
        None => {},
        Some(buttons) => {
            let mut i: usize = 0;
            assert(entries.take(0) =~= Seq::<(Seq<u8>, Option<Seq<u8>>)>::empty());
            while i < buttons.len()
                invariant
                    i <= buttons@.len(),
                    config.buttons == Some(*buttons),
                    entries == config.button_icons(),
                    entries.len() == buttons@.len(),
                    placed_views(out@) == placed(entries.take(i as int)),
                decreases buttons@.len() - i,
            {
                proof {
                    let upto = entries.take(i + 1);
                    assert(upto.drop_last() =~= entries.take(i as int));
                    assert(upto.last() == entries[i as int]);
                }
                let key: &[u8] = text_bytes(&buttons[i].0);
                match &buttons[i].1.icon {
                    None => {},
                    Some(text) => {
                        let (dir, leaf_from): (Vec<u8>, usize) = match find_last_slash(key) {
                            None => (Vec::new(), 0),
                            Some(at) => if at == 0 {
                                (copy_range(key, 0, 1), 1)
                            } else {
                                (copy_range(key, 0, at), at + 1)
                            },
                        };
                        let leaf: Vec<u8> = copy_range(key, leaf_from, key.len());
                        proof {
                            if leaf_from == 1 {
                                assert(dir@ =~= seq![SLASH]);
                            }
                            assert(dir@ =~= directory_of(key@));
                            assert(leaf@ =~= leaf_of(key@));
                        }
                        match parse_u32(leaf.as_slice()) {
                            None => {},
                            Some(index) => {
                                let icon_bytes: &[u8] = text_bytes(text);
                                let icon: Vec<u8> = copy_range(icon_bytes, 0, icon_bytes.len());
                                assert(icon@ =~= icon_bytes@);
                                let ghost before = placed_views(out@);
                                let entry = Placed { dir, index, icon };
                                out.push(entry);
                                assert(placed_views(out@) =~= before.push(entry@));
                            },
                        }
                    },
                }
                i += 1;
            }
            assert(entries.take(i as int) =~= entries);
        },
    }
    out
}

/// The directories that have a button, each once, in the order in which
/// they first occur.
pub fn list_directories(placed: &Vec<Placed>) -> (r: Vec<Vec<u8>>)
    ensures
        views(r@) == directories(placed_views(placed@)),
{
    let mut out: Vec<Vec<u8>> = Vec::new();
    let ghost all = dirs_of(placed_views(placed@));
    let mut i: usize = 0;
    assert(views(out@) =~= Seq::<Seq<u8>>::empty());
    assert(all.skip(0) =~= all);
    while i < placed.len()
        invariant
            i <= placed@.len(),
            all == dirs_of(placed_views(placed@)),
            with_all(views(out@), all.skip(i as int)) == directories(placed_views(placed@)),
        decreases placed@.len() - i,
    {
        proof {
            let rest = all.skip(i as int);
            assert(rest.first() == placed@[i as int].dir@);
            assert(rest.drop_first() =~= all.skip(i + 1));
        }
        if !contains_path(&out, placed[i].dir.as_slice()) {
            let ghost before = views(out@);
            let dir: Vec<u8> = copy_range(placed[i].dir.as_slice(), 0, placed[i].dir.len());
            assert(dir@ =~= placed@[i as int].dir@);
            out.push(dir);
            assert(views(out@) =~= before.push(dir@));
        }
        i += 1;
    }
    out
}

/// The top left corner of the button at position `index`, where it lies
/// within 32 bits.
pub fn cell_of(info: &DeviceInfo, index: u32) -> (r: Option<(u32, u32)>)
    ensures
        match r {
            Some((x, y)) => cell(*info, index) == Some((x as int, y as int)),
            None => cell(*info, index) matches Some((x, y)) ==> x > u32::MAX || y > u32::MAX,
        },
{
    if info.buttons_per_row == 0 {
        return None;
    }
    let pitch: u64 = info.button_size as u64 + info.gap_size as u64;
    let column: u64 = (index % info.buttons_per_row) as u64;
    let row: u64 = (index / info.buttons_per_row) as u64;
    assert(column * pitch <= 0xffff_ffff * 0x1_ffff_fffe && row * pitch <= 0xffff_ffff
        * 0x1_ffff_fffe) by (nonlinear_arith)
        requires
            0 <= column <= 0xffff_ffff,
            0 <= row <= 0xffff_ffff,
            0 <= pitch <= 0x1_ffff_fffe,
    ;
    let x: u128 = (column as u128) * (pitch as u128);
    let y: u128 = (row as u128) * (pitch as u128);
    if x > 0xffff_ffff || y > 0xffff_ffff {
        None
    } else {
        Some((x as u32, y as u32))
    }
}

/// The picture of the directory `dir`: every tile of a button in it laid
/// over the canvas at its cell, in the order of the buttons.
pub fn compose(
    canvas: Image,
    info: &DeviceInfo,
    dir: &[u8],
    placed: &Vec<Placed>,
    tiles: &Vec<Option<Image>>,
) -> (r: Image)
    ensures
        r@ == composed(
            canvas@,
            *info,
            dir@,
            placed_views(placed@),
            tile_views(tiles@),
            placed@.len() as int,
        ),
{
    let mut picture: Image = canvas;
    let mut i: usize = 0;
    while i < placed.len()
        invariant
            i <= placed@.len(),
            picture@ == composed(
                canvas@,
                *info,
                dir@,
                placed_views(placed@),
                tile_views(tiles@),
                i as int,
            ),
        decreases placed@.len() - i,
    {
        let ghost before = picture@;
        let tile: Option<&Image> = if i < tiles.len() {
            tiles[i].as_ref()
        } else {
            None
        };
        match tile {
            None => {},
            Some(tile) => {
                if same_bytes(placed[i].dir.as_slice(), dir) {
                    let width: u32 = picture.width();
                    let height: u32 = picture.height();
                    let tile_width: u32 = tile.width();
                    let tile_height: u32 = tile.height();
                    match cell_of(info, placed[i].index) {
                        None => {
                            assert(cell(*info, placed@[i as int].index) matches Some((x, y))
                                ==> !before.fits(tile@, x, y));
                        },
                        Some((x, y)) => {
                            let done: bool = picture.paste(tile, x, y);
                        },
                    }
                }
            },
        }
        i += 1;
    }
    picture
}

/// The tile of an icon for buttons of `size` by `size` pixels: the base64
/// text read, the image file decoded, and the image brought to that size.
/// `None` where any of that fails. Which files the decoder takes, and what
/// the filter makes of an image of another size, is their own matter.
pub fn render(icon: &[u8], size: u32) -> (r: Option<Image>)
    ensures
        r matches Some(tile) ==> tile@.wf() && tile@.width == size && tile@.height == size
            && base64_decoding(icon@) is Some,
{
    let file: Vec<u8> = match decode_base64(icon) {
        Ok(file) => file,
        Err(_) => {
            return None;
        },
    };
    let image: Image = match decode_image(file.as_slice()) {
        Ok(image) => image,
        Err(_) => {
            return None;
        },
    };
    resize(&image, size, size)
}

/// The tile of every button, in the order of the buttons.
pub fn render_all(placed: &Vec<Placed>, size: u32) -> (tiles: Vec<Option<Image>>)
    ensures
        are_tiles_of(tile_views(tiles@), placed_views(placed@), size),
{
    let mut tiles: Vec<Option<Image>> = Vec::new();
    let mut i: usize = 0;
    while i < placed.len()
        invariant
            i <= placed@.len(),
            tiles@.len() == i,
            forall|j: int|
                0 <= j < tiles@.len() ==> ((#[trigger] tiles@[j]) matches Some(tile)
                    ==> tile@.wf() && tile@.width == size && tile@.height == size
                    && base64_decoding(placed@[j].icon@) is Some),
        decreases placed@.len() - i,
    {
        let tile: Option<Image> = render(placed[i].icon.as_slice(), size);
        tiles.push(tile);
        i += 1;
    }
    assert forall|j: int| 0 <= j < tile_views(tiles@).len() implies ((#[trigger] tile_views(
        tiles@,
    )[j]) matches Some(tile) ==> tile.wf() && tile.width == size && tile.height == size
        && base64_decoding(placed_views(placed@)[j].icon) is Some) by {
        assert(tiles@[j] is Some ==> tile_views(tiles@)[j] == Some(tiles@[j]->0@));
    }
    tiles
}

/// The pictures to write for a device with the layout `info`, given the
/// tiles of the buttons.
pub fn plan_uploads(info: &DeviceInfo, placed: &Vec<Placed>, tiles: &Vec<Option<Image>>) -> (r:
    Result<Vec<(Vec<u8>, Image)>, Error>)
    ensures
        match r {
            Ok(list) => planned(*info, placed_views(placed@), tile_views(tiles@)) == Ok::<
                Seq<(Seq<u8>, Pixels)>,
                Error,
            >(upload_views(list@)),
            Err(e) => planned(*info, placed_views(placed@), tile_views(tiles@)) == Err::<
                Seq<(Seq<u8>, Pixels)>,
                Error,
            >(e),
        },
{
    if tiles.len() != placed.len() {
        return Err(Error::State);
    }
    let (width, height): (u32, u32) = match info.canvas_size() {
        None => {
            return Err(Error::Image);
        },
        Some(size) => size,
    };
    let dirs: Vec<Vec<u8>> = list_directories(placed);
    let mut list: Vec<(Vec<u8>, Image)> = Vec::new();
    let mut i: usize = 0;
    assert(upload_views(list@) =~= Seq::<(Seq<u8>, Pixels)>::empty());
    if crate::raster::byte_count(width, height) > usize::MAX as u128 {
        return Err(Error::Image);
    }
    while i < dirs.len()
        invariant
            i <= dirs@.len(),
            4 * width * height <= usize::MAX,
            views(dirs@) == directories(placed_views(placed@)),
            upload_views(list@) == uploads(
                width,
                height,
                *info,
                placed_views(placed@),
                tile_views(tiles@),
                i as int,
            ),
        decreases dirs@.len() - i,
    {
        let canvas: Image = match Image::filled(width, height, 0, 0, 0, 255) {
            Some(canvas) => canvas,
            None => {
                return Err(Error::Image);
            },
        };
        let picture: Image = compose(canvas, info, dirs[i].as_slice(), placed, tiles);
        let mut path: Vec<u8> = copy_range(dirs[i].as_slice(), 0, dirs[i].len());
        path.extend_from_slice(AIO_NAME.as_slice());
        proof {
            assert(views(dirs@)[i as int] == dirs@[i as int]@);
            assert(path@ =~= dirs@[i as int]@ + AIO_NAME@);
        }
        let ghost before = upload_views(list@);
        list.push((path, picture));
        assert(upload_views(list@) =~= before.push((path@, picture@)));
        i += 1;
    }
    Ok(list)
}

/// How far a flash has come.
#[derive(Clone, Copy, Debug, PartialEq, Eq, Structural)]
pub enum FlashPhase {
    /// The layout of the device is being asked for.
    Layout,
    /// The device is being wiped.
    Wipe,
    /// The picture at `next` is being written.
    Upload,
    /// The flash has ended.
    Over,
}

/// A flash under way. It drives the session: every step that it hands out
/// comes from an operation of the session, and every event goes back to it.
#[derive(Debug)]
pub struct Flash {
    placed: Vec<Placed>,
    uploads: Vec<(Vec<u8>, Image)>,
    next: usize,
    phase: FlashPhase,
    failed: Vec<Vec<u8>>,
}

pub struct FlashView {
    /// The buttons that the configuration places.
    pub placed: Seq<PlacedView>,
    /// The pictures to write, once the layout is known.
    pub uploads: Seq<(Seq<u8>, Pixels)>,
    /// Which picture is being written.
    pub next: nat,
    pub phase: FlashPhase,
    /// The paths of the pictures that could not be written.
    pub failed: Seq<Seq<u8>>,
}

impl View for Flash {
    type V = FlashView;

    closed spec fn view(&self) -> FlashView {
        FlashView {
            placed: placed_views(self.placed@),
            uploads: upload_views(self.uploads@),
            next: self.next as nat,
            phase: self.phase,
            failed: views(self.failed@),
        }
    }
}

/// A flash, the session, and the step to take.
pub type Turnout = (FlashView, DeckState, StepView);

impl FlashView {
    /// The flash ends with `result`.
    pub open spec fn over(self, deck: DeckState, result: Result<ReplyView, Error>) -> Turnout {
        (FlashView { phase: FlashPhase::Over, ..self }, deck, StepView::Finished(result))
    }

    /// Writes the pictures from the one at `k` on. A picture that cannot
    /// even be announced counts as failed, and the next one is tried. When
    /// none is left the flash has succeeded, however many failed.
    pub open spec fn upload_from(self, deck: DeckState, k: int) -> Turnout
        decreases self.uploads.len() - k,
    {
        if k < 0 || k >= self.uploads.len() {
            (FlashView { next: self.uploads.len(), ..self }).over(deck, Ok(ReplyView::Done))
        } else {
            let begun = deck.set_icon(self.uploads[k].0, self.uploads[k].1);
            if begun.1 is Finished {
                (FlashView { failed: self.failed.push(self.uploads[k].0), ..self }).upload_from(
                    begun.0,
                    k + 1,
                )
            } else {
                (FlashView { next: k as nat, phase: FlashPhase::Upload, ..self }, begun.0, begun.1)
            }
        }
    }

    /// Wipes the device: removes the root folder.
    pub open spec fn wipe(self, deck: DeckState) -> Turnout {
        let begun = deck.remove_folder(seq![SLASH]);
        match begun.1 {
            StepView::Finished(result) => self.over(begun.0, result),
            _ => (FlashView { phase: FlashPhase::Wipe, ..self }, begun.0, begun.1),
        }
    }

    /// Goes on once the layout is known: makes the pictures from the tiles
    /// of the buttons and wipes the device. Where the pictures cannot be
    /// made the flash ends before anything is wiped.
    pub open spec fn with_layout(self, deck: DeckState, info: DeviceInfo, tiles: Seq<Option<Pixels>>)
        -> Turnout {
        match planned(info, self.placed, tiles) {
            Err(e) => self.over(deck, Err(e)),
            Ok(list) => (FlashView { uploads: list, ..self }).wipe(deck),
        }
    }

    /// What the flash makes of a step of the session. A step that asks for
    /// something on the port is handed on. The end of an operation decides:
    /// with the layout the pictures are made and the wipe begins; without it
    /// the flash ends with the error. After the wipe the pictures are
    /// written; a wipe that failed ends the flash with the error. A picture
    /// that could not be written counts as failed, and the next is written.
    pub open spec fn after(self, deck: DeckState, step: StepView, tiles: Seq<Option<Pixels>>)
        -> Turnout {
        match step {
            StepView::Finished(result) => match self.phase {
                FlashPhase::Layout => match result {
                    Ok(ReplyView::Info(info)) => self.with_layout(deck, info, tiles),
                    Ok(_) => self.over(deck, Err(Error::State)),
                    Err(e) => self.over(deck, Err(e)),
                },
                FlashPhase::Wipe => match result {
                    Ok(_) => self.upload_from(deck, 0),
                    Err(e) => self.over(deck, Err(e)),
                },
                FlashPhase::Upload => {
                    let following: int = if self.next < self.uploads.len() {
                        self.next as int + 1
                    } else {
                        self.uploads.len() as int
                    };
                    match result {
                        Ok(_) => self.upload_from(deck, following),
                        Err(_) => (FlashView {
                            failed: if self.next < self.uploads.len() {
                                self.failed.push(self.uploads[self.next as int].0)
                            } else {
                                self.failed
                            },
                            ..self
                        }).upload_from(deck, following),
                    }
                },
                FlashPhase::Over => self.over(deck, Err(Error::State)),
            },
            _ => (self, deck, step),
        }
    }

    /// What an event leads to. `decoded` is what the image decoder made of
    /// a payload and `tiles` what came of rendering the icons; each counts
    /// only where the session or the flash comes to use it.
    pub open spec fn resume(
        self,
        deck: DeckState,
        event: crate::protocol::EventView,
        decoded: Option<Pixels>,
        tiles: Seq<Option<Pixels>>,
    ) -> Turnout {
        if self.phase == FlashPhase::Over {
            (self, deck, StepView::Finished(Err(Error::State)))
        } else {
            let next = deck.resume(event, decoded);
            self.after(next.0, next.1, tiles)
        }
    }
}

/// A flash that has placed the buttons `entries` and waits for the layout.
pub open spec fn starting(entries: Seq<(Seq<u8>, Option<Seq<u8>>)>) -> FlashView {
    FlashView {
        placed: placed(entries),
        uploads: Seq::empty(),
        next: 0,
        phase: FlashPhase::Layout,
        failed: Seq::empty(),
    }
}

/// Begins a flash: a configuration without buttons is an error; else the
/// buttons are placed and the layout is asked for.
pub open spec fn flash_begun(
    deck: DeckState,
    buttons: Option<Seq<(Seq<u8>, Option<Seq<u8>>)>>,
    tiles: Seq<Option<Pixels>>,
) -> Turnout {
    match buttons {
        None => starting(Seq::empty()).over(deck, Err(Error::Config)),
        Some(entries) => {
            let begun = deck.get_info();
            starting(entries).after(begun.0, begun.1, tiles)
        },
    }
}

/// `tiles` is what rendering gave where the flash rendered: where `step`
/// brings the layout to a flash that waits for it, the tiles of its buttons
/// for the size of a button of that layout. Elsewhere nothing is rendered
/// and `tiles` plays no part.
pub open spec fn are_rendered_for(f: FlashView, step: StepView, tiles: Seq<Option<Pixels>>)
    -> bool {
    f.phase == FlashPhase::Layout ==> (step matches StepView::Finished(Ok(ReplyView::Info(info)))
        ==> are_tiles_of(tiles, f.placed, info.button_size))
}

/// Laying tiles over a canvas leaves it whole and of its size.
proof fn lemma_composed_keeps_its_size(
    canvas: Pixels,
    info: DeviceInfo,
    dir: Seq<u8>,
    placed: Seq<PlacedView>,
    tiles: Seq<Option<Pixels>>,
    n: int,
)
    requires
        canvas.wf(),
        0 <= n <= placed.len(),
        forall|i: int| 0 <= i < tiles.len() ==> ((#[trigger] tiles[i]) matches Some(t) ==> t.wf()),
    ensures
        composed(canvas, info, dir, placed, tiles, n).wf(),
        composed(canvas, info, dir, placed, tiles, n).same_size(canvas),
    decreases n,
{
    if n > 0 {
        lemma_composed_keeps_its_size(canvas, info, dir, placed, tiles, n - 1);
        let before = composed(canvas, info, dir, placed, tiles, n - 1);
        if n - 1 < tiles.len() && tiles[n - 1] is Some && cell(info, placed[n - 1].index) is Some {
            let tile = tiles[n - 1]->0;
            let at = cell(info, placed[n - 1].index)->0;
            let pitch = info.button_size + info.gap_size;
            assert(at.0 >= 0 && at.1 >= 0) by (nonlinear_arith)
                requires
                    at.0 == (placed[n - 1].index % info.buttons_per_row) * pitch,
                    at.1 == (placed[n - 1].index / info.buttons_per_row) * pitch,
                    pitch >= 0,
                    placed[n - 1].index % info.buttons_per_row >= 0,
                    placed[n - 1].index / info.buttons_per_row >= 0,
            ;
            if before.fits(tile, at.0, at.1) {
                law_pasted_tile_lies_at_its_place(before, tile, at.0, at.1);
            }
        }
    }
}

proof fn lemma_uploads(
    width: u32,
    height: u32,
    info: DeviceInfo,
    placed: Seq<PlacedView>,
    tiles: Seq<Option<Pixels>>,
    n: int,
)
    requires
        0 <= n <= directories(placed).len(),
        forall|i: int| 0 <= i < tiles.len() ==> ((#[trigger] tiles[i]) matches Some(t) ==> t.wf()),
    ensures
        uploads(width, height, info, placed, tiles, n).len() == n,
        forall|i: int|
            0 <= i < n ==> {
                let upload = #[trigger] uploads(width, height, info, placed, tiles, n)[i];
                &&& upload.0 == directories(placed)[i] + AIO_NAME@
                &&& upload.1 == composed(
                    blank(width, height),
                    info,
                    directories(placed)[i],
                    placed,
                    tiles,
                    placed.len() as int,
                )
                &&& upload.1.wf()
                &&& upload.1.width == width
                &&& upload.1.height == height
            },
    decreases n,
{
    if n > 0 {
        lemma_uploads(width, height, info, placed, tiles, n - 1);
        law_solid_image_is_one_colour(width as nat, height as nat, 0, 0, 0, 255);
        lemma_composed_keeps_its_size(
            blank(width, height),
            info,
            directories(placed)[n - 1],
            placed,
            tiles,
            placed.len() as int,
        );
        let all = uploads(width, height, info, placed, tiles, n);
        let front = uploads(width, height, info, placed, tiles, n - 1);
        assert forall|i: int| 0 <= i < n implies {
            let upload = #[trigger] all[i];
            &&& upload.0 == directories(placed)[i] + AIO_NAME@
            &&& upload.1 == composed(
                blank(width, height),
                info,
                directories(placed)[i],
                placed,
                tiles,
                placed.len() as int,
            )
            &&& upload.1.wf()
            &&& upload.1.width == width
            &&& upload.1.height == height
        } by {
            if i < n - 1 {
                assert(all[i] == front[i]);
            }
        }
    }
}

/// One picture for each directory, each as large as the rows of buttons:
/// with a tile or none for each button and a layout whose canvas fits in
/// memory, there is a plan; it has one picture for each directory that has a
/// button, in the order of the directories; the picture of a directory is
/// written at `aio.jpg` in it; and every picture is whole, as wide as the
/// display and as high as the rows of buttons without the last gap.
pub proof fn law_one_picture_for_each_directory(
    info: DeviceInfo,
    placed: Seq<PlacedView>,
    tiles: Seq<Option<Pixels>>,
)
    requires
        are_tiles_of(tiles, placed, info.button_size),
        info.canvas() matches Some(size) && 4 * size.0 * size.1 <= usize::MAX,
    ensures
        planned(info, placed, tiles) matches Ok(list) && {
            &&& list.len() == directories(placed).len()
            &&& forall|i: int|
                0 <= i < list.len() ==> {
                    &&& (#[trigger] list[i]).0 == directories(placed)[i] + AIO_NAME@
                    &&& list[i].1.wf()
                    &&& list[i].1.width == info.width
                    &&& list[i].1.height == info.height - info.gap_size - info.status_bar_height
                }
        },
{
    let size = info.canvas()->0;
    lemma_uploads(size.0, size.1, info, placed, tiles, directories(placed).len() as int);
}

/// The device is wiped before anything is written, and a wipe that fails
/// ends the flash: once the pictures are planned, the first request of the
/// flash is `df /`; when the device has acknowledged it the first picture is
/// announced with `wi`, its path and the size of its JPEG file; and where the
/// wipe ends with an error the flash ends with that error and nothing is
/// written.
pub proof fn law_flash_wipes_before_it_writes(
    f: FlashView,
    deck: DeckState,
    info: DeviceInfo,
    tiles: Seq<Option<Pixels>>,
    e: Error,
)
    requires
        deck.pending is None,
        planned(info, f.placed, tiles) is Ok,
    ensures
        ({
            let list = planned(info, f.placed, tiles)->Ok_0;
            let wiping = f.with_layout(deck, info, tiles);
            &&& wiping.0 == (FlashView { uploads: list, phase: FlashPhase::Wipe, ..f })
            &&& wiping.2 == StepView::Write(request(TAG_DF@, seq![seq![SLASH]]))
            &&& wiping.0.after(deck, StepView::Finished(Err(e)), tiles) == wiping.0.over(
                deck,
                Err(e),
            )
            &&& wiping.0.after(deck, StepView::Finished(Ok(ReplyView::Done)), tiles)
                == wiping.0.upload_from(deck, 0)
            &&& list.len() > 0 && jpeg_of(list[0].1) is Some ==> wiping.0.upload_from(deck, 0).2
                == StepView::Write(
                request(TAG_WI@, seq![list[0].0, decimal_digits(jpeg_of(list[0].1)->0.len())]),
            ) && wiping.0.upload_from(deck, 0).0.next == 0 && wiping.0.upload_from(deck, 0).0.phase
                == FlashPhase::Upload
        }),
{
}

/// A picture that fails does not end the flash: where the device refuses the
/// picture that is being written, its path is noted as failed and the next
/// picture is announced; after the last picture the flash ends well.
pub proof fn law_flash_goes_on_after_a_failed_picture(
    f: FlashView,
    deck: DeckState,
    tiles: Seq<Option<Pixels>>,
    e: Error,
)
    requires
        deck.pending is None,
        f.phase == FlashPhase::Upload,
        f.next < f.uploads.len(),
    ensures
        ({
            let on = f.after(deck, StepView::Finished(Err(e)), tiles);
            let following: int = f.next as int + 1;
            &&& following < f.uploads.len() && jpeg_of(f.uploads[following].1) is Some ==> {
                &&& on.0 == (FlashView {
                    failed: f.failed.push(f.uploads[f.next as int].0),
                    next: following as nat,
                    ..f
                })
                &&& on.2 == StepView::Write(
                    request(
                        TAG_WI@,
                        seq![
                            f.uploads[following].0,
                            decimal_digits(jpeg_of(f.uploads[following].1)->0.len()),
                        ],
                    ),
                )
            }
            &&& following == f.uploads.len() ==> on.2 == StepView::Finished(Ok(ReplyView::Done))
                && on.0.failed == f.failed.push(f.uploads[f.next as int].0) && on.1 == deck
        }),
{
    let noted = FlashView { failed: f.failed.push(f.uploads[f.next as int].0), ..f };
    assert(f.after(deck, StepView::Finished(Err(e)), tiles) == noted.upload_from(
        deck,
        f.next as int + 1,
    ));
}

impl Flash {
    /// Whether the flash has ended.
    pub fn is_over(&self) -> (r: bool)
        ensures
            r == (self@.phase == FlashPhase::Over),
    {
        match self.phase {
            FlashPhase::Over => true,
            _ => false,
        }
    }

    /// The paths of the pictures that could not be written.
    pub fn failed(&self) -> (r: &Vec<Vec<u8>>)
        ensures
            views(r@) == self@.failed,
    {
        &self.failed
    }

    /// How many pictures the flash writes, once the layout is known.
    pub fn planned_uploads(&self) -> (r: usize)
        ensures
            r == self@.uploads.len(),
    {
        assert(upload_views(self.uploads@).len() == self.uploads@.len());
        self.uploads.len()
    }

    fn upload_from<B, S>(&mut self, deck: &mut MacroDeck<B, S>, k: usize) -> (step: Step)
        ensures
            (final(self)@, final(deck)@, step@) == old(self)@.upload_from(old(deck)@, k as int),
            final(deck).handlers() == old(deck).handlers(),
    {
        let mut at: usize = k;
        loop
            invariant
                deck.handlers() == old(deck).handlers(),
                self@.upload_from(deck@, at as int) == old(self)@.upload_from(old(deck)@, k as int),
            decreases self.uploads@.len() - at,
        {
            let ghost before = self@;
            let ghost deck_before = deck@;
            assert(before.uploads.len() == self.uploads@.len());
            if at >= self.uploads.len() {
                self.next = self.uploads.len();
                self.phase = FlashPhase::Over;
                assert(self@ == (FlashView {
                    phase: FlashPhase::Over,
                    next: before.uploads.len(),
                    ..before
                }));
                return Step::Finished(Ok(Reply::Done));
            }
            let icon: Image = self.uploads[at].1.duplicate();
            let step: Step = deck.set_icon(self.uploads[at].0.as_slice(), icon);
            assert(upload_views(self.uploads@)[at as int] == (
                self.uploads@[at as int].0@,
                self.uploads@[at as int].1@,
            ));
            match step {
                Step::Finished(_) => {
                    let path: Vec<u8> = copy_range(
                        self.uploads[at].0.as_slice(),
                        0,
                        self.uploads[at].0.len(),
                    );
                    assert(path@ =~= self.uploads@[at as int].0@);
                    let ghost earlier = views(self.failed@);
                    self.failed.push(path);
                    assert(views(self.failed@) =~= earlier.push(path@));
                    at += 1;
                },
                other => {
                    self.next = at;
                    self.phase = FlashPhase::Upload;
                    assert(!(other@ is Finished));
                    assert(self@ == (FlashView {
                        next: at as nat,
                        phase: FlashPhase::Upload,
                        ..before
                    }));
                    return other;
                },
            }
        }
    }

    fn wipe<B, S>(&mut self, deck: &mut MacroDeck<B, S>) -> (step: Step)
        ensures
            (final(self)@, final(deck)@, step@) == old(self)@.wipe(old(deck)@),
            final(deck).handlers() == old(deck).handlers(),
    {
        let mut root: Vec<u8> = Vec::new();
        root.push(SLASH);
        assert(root@ =~= seq![SLASH]);
        let step: Step = deck.remove_folder(root.as_slice());
        match step {
            Step::Finished(result) => {
                self.phase = FlashPhase::Over;
                Step::Finished(result)
            },
            other => {
                self.phase = FlashPhase::Wipe;
                other
            },
        }
    }

    /// Goes on once the layout is known, given the tiles of the buttons.
    pub fn with_layout<B, S>(
        &mut self,
        deck: &mut MacroDeck<B, S>,
        info: DeviceInfo,
        tiles: Vec<Option<Image>>,
    ) -> (step: Step)
        ensures
            (final(self)@, final(deck)@, step@) == old(self)@.with_layout(
                old(deck)@,
                info,
                tile_views(tiles@),
            ),
            final(deck).handlers() == old(deck).handlers(),
    {
        match plan_uploads(&info, &self.placed, &tiles) {
            Err(e) => {
                self.phase = FlashPhase::Over;
                Step::Finished(Err(e))
            },
            Ok(list) => {
                self.uploads = list;
                self.wipe(deck)
            },
        }
    }

    /// What the flash makes of a step of the session, given the tiles of
    /// the buttons for the case that the step brings the layout.
    pub fn after_with<B, S>(
        &mut self,
        deck: &mut MacroDeck<B, S>,
        step: Step,
        tiles: Vec<Option<Image>>,
    ) -> (r: Step)
        ensures
            (final(self)@, final(deck)@, r@) == old(self)@.after(
                old(deck)@,
                step@,
                tile_views(tiles@),
            ),
            final(deck).handlers() == old(deck).handlers(),
    {
        match step {
            Step::Finished(result) => match self.phase {
                FlashPhase::Layout => match result {
                    Ok(Reply::Info(info)) => self.with_layout(deck, info, tiles),
                    Ok(_) => {
                        self.phase = FlashPhase::Over;
                        Step::Finished(Err(Error::State))
                    },
                    Err(e) => {
                        self.phase = FlashPhase::Over;
                        Step::Finished(Err(e))
                    },
                },
                FlashPhase::Wipe => match result {
                    Ok(_) => self.upload_from(deck, 0),
                    Err(e) => {
                        self.phase = FlashPhase::Over;
                        Step::Finished(Err(e))
                    },
                },
                FlashPhase::Upload => {
                    assert(upload_views(self.uploads@).len() == self.uploads@.len());
                    let following: usize = if self.next < self.uploads.len() {
                        self.next + 1
                    } else {
                        self.uploads.len()
                    };
                    match result {
                        Ok(_) => self.upload_from(deck, following),
                        Err(_) => {
                            if self.next < self.uploads.len() {
                                let path: Vec<u8> = copy_range(
                                    self.uploads[self.next].0.as_slice(),
                                    0,
                                    self.uploads[self.next].0.len(),
                                );
                                assert(path@ =~= self.uploads@[self.next as int].0@);
                                let ghost earlier = views(self.failed@);
                                self.failed.push(path);
                                assert(views(self.failed@) =~= earlier.push(path@));
                            }
                            self.upload_from(deck, following)
                        },
                    }
                },
                FlashPhase::Over => Step::Finished(Err(Error::State)),
            },
            other => other,
        }
    }

    /// What the flash makes of a step of the session. Where the step brings
    /// the layout, the icon of every button is rendered here for the size of
    /// a button; which icons give a tile and what it shows is the matter of
    /// the decoder and the filter, and the flash goes on as `after_with`
    /// says for the tiles that came of it.
    pub fn after<B, S>(&mut self, deck: &mut MacroDeck<B, S>, step: Step) -> (r: Step)
        ensures
            exists|tiles: Seq<Option<Pixels>>|
                are_rendered_for(old(self)@, step@, tiles) && (final(self)@, final(deck)@, r@)
                    == #[trigger] old(self)@.after(old(deck)@, step@, tiles),
            final(deck).handlers() == old(deck).handlers(),
    {
        let size: Option<u32> = match (&step, self.phase) {
            (Step::Finished(Ok(Reply::Info(info))), FlashPhase::Layout) => Some(info.button_size),
            _ => None,
        };
        let tiles: Vec<Option<Image>> = match size {
            Some(size) => render_all(&self.placed, size),
            None => Vec::new(),
        };
        let ghost witness = tile_views(tiles@);
        assert(are_rendered_for(self@, step@, witness));
        let r: Step = self.after_with(deck, step, tiles);
        assert((self@, deck@, r@) == old(self)@.after(old(deck)@, step@, witness));
        r
    }

    /// Goes on with the flash, given what happened on the port.
    pub fn resume<B, S>(&mut self, deck: &mut MacroDeck<B, S>, event: Event) -> (step: Step)
        ensures
            exists|decoded: Option<Pixels>, tiles: Seq<Option<Pixels>>|
                (decoded matches Some(p) ==> p.wf()) && are_rendered_for(
                    old(self)@,
                    old(deck)@.resume(event@, decoded).1,
                    tiles,
                ) && (final(self)@, final(deck)@, step@) == #[trigger] old(self)@.resume(
                    old(deck)@,
                    event@,
                    decoded,
                    tiles,
                ),
            final(deck).handlers() == old(deck).handlers(),
    {
        match self.phase {
            FlashPhase::Over => {
                let ghost none: Option<Pixels> = None;
                let ghost empty: Seq<Option<Pixels>> = Seq::empty();
                assert((self@, deck@, StepView::Finished(Err(Error::State))) == old(self)@.resume(
                    old(deck)@,
                    event@,
                    none,
                    empty,
                ));
                return Step::Finished(Err(Error::State));
            },
            _ => {},
        }
        let inner: Step = deck.resume(event);
        let ghost decoded = choose|decoded: Option<Pixels>|
            (decoded matches Some(p) ==> p.wf()) && (deck@, inner@) == #[trigger] old(
                deck,
            )@.resume(event@, decoded);
        let ghost mid = deck@;
        let r: Step = self.after(deck, inner);
        let ghost tiles = choose|tiles: Seq<Option<Pixels>>|
            are_rendered_for(old(self)@, inner@, tiles) && (self@, deck@, r@) == #[trigger] old(
                self,
            )@.after(mid, inner@, tiles);
        assert((self@, deck@, r@) == old(self)@.resume(old(deck)@, event@, decoded, tiles));
        r
    }
}

/// The buttons of a configuration as the flash sees them: where there are
/// any, the path and the icon text of each.
pub open spec fn buttons_of(config: Config) -> Option<Seq<(Seq<u8>, Option<Seq<u8>>)>> {
    match config.buttons {
        None => None,
        Some(_) => Some(config.button_icons()),
    }
}

/// Begins to flash the device with the icons of `config`: for each directory
/// of buttons one picture with every icon at its place, then the device
/// wiped, then the pictures written. The flash that comes back takes the
/// events from here on.
pub fn flash_device<B, S>(deck: &mut MacroDeck<B, S>, config: &Config) -> (r: (Flash, Step))
    ensures
        exists|tiles: Seq<Option<Pixels>>|
            (buttons_of(*config) matches Some(entries) ==> are_rendered_for(
                starting(entries),
                old(deck)@.get_info().1,
                tiles,
            )) && (r.0@, final(deck)@, r.1@) == #[trigger] flash_begun(
                old(deck)@,
                buttons_of(*config),
                tiles,
            ),
        final(deck).handlers() == old(deck).handlers(),
{
    let mut flash = Flash {
        placed: Vec::new(),
        uploads: Vec::new(),
        next: 0,
        phase: FlashPhase::Layout,
        failed: Vec::new(),
    };
    proof {
        assert(placed_views(flash.placed@) =~= Seq::<PlacedView>::empty());
        assert(upload_views(flash.uploads@) =~= Seq::<(Seq<u8>, Pixels)>::empty());
        assert(views(flash.failed@) =~= Seq::<Seq<u8>>::empty());
    }
    match &config.buttons {
        None => {
            flash.phase = FlashPhase::Over;
            let ghost empty: Seq<Option<Pixels>> = Seq::empty();
            assert((flash@, deck@, StepView::Finished(Err(Error::Config))) == flash_begun(
                old(deck)@,
                buttons_of(*config),
                empty,
            ));
            (flash, Step::Finished(Err(Error::Config)))
        },
        Some(_) => {
            flash.placed = place_buttons(config);
            let begun: Step = deck.get_info();
            let ghost start = flash@;
            let ghost mid = deck@;
            let step: Step = flash.after(deck, begun);
            let ghost tiles = choose|tiles: Seq<Option<Pixels>>|
                are_rendered_for(start, begun@, tiles) && (flash@, deck@, step@)
                    == #[trigger] start.after(mid, begun@, tiles);
            assert(start == starting(config.button_icons()));
            assert((flash@, deck@, step@) == flash_begun(old(deck)@, buttons_of(*config), tiles));
            (flash, step)
        },
    }
}

} // verus!
