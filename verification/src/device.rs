//! The layout of the device: what it reports and what follows from it.

use vstd::prelude::*;
use crate::bytes::{numeral_u32, parse_u32};
use crate::error::Error;
use crate::message::{Message, TAG_LI};

verus! {

/// The layout of a device. A display of `width` by `height` pixels holds
/// `num_of_rows` rows of `buttons_per_row` square buttons, `gap_size` pixels
/// apart, and below them the status bar.
#[derive(Clone, Copy, Debug, PartialEq, Eq, Structural)]
pub struct DeviceInfo {
    pub width: u32,
    pub height: u32,
    pub buttons_per_row: u32,
    pub num_of_rows: u32,
    pub gap_size: u32,
    pub button_size: u32,
    pub status_bar_height: u32,
}

impl DeviceInfo {
    /// The size of the buttons and the height of the status bar are those
    /// that the other five numbers give, without a remainder.
    pub open spec fn wf(self) -> bool {
        &&& self.buttons_per_row > 0
        &&& (self.buttons_per_row - 1) * self.gap_size <= self.width
        &&& (self.width - (self.buttons_per_row - 1) * self.gap_size) % (self.buttons_per_row as int)
            == 0
        &&& self.button_size == (self.width - (self.buttons_per_row - 1) * self.gap_size) / (
        self.buttons_per_row as int)
        &&& self.num_of_rows * (self.button_size + self.gap_size) <= self.height
        &&& self.status_bar_height == self.height - self.num_of_rows * (self.button_size
            + self.gap_size)
    }

    /// The layout that the five numbers of the device give, where they give
    /// one: the buttons of a row and the gaps between them fill the width
    /// exactly, and the rows are not higher than the display.
    pub open spec fn derived(
        width: u32,
        height: u32,
        buttons_per_row: u32,
        num_of_rows: u32,
        gap_size: u32,
    ) -> Option<DeviceInfo> {
        let gaps = (buttons_per_row - 1) * gap_size;
        if buttons_per_row == 0 || gaps > width || (width - gaps) % (buttons_per_row as int) != 0 {
            None
        } else {
            let button_size = (width - gaps) / (buttons_per_row as int);
            let rows = num_of_rows * (button_size + gap_size);
            if rows > height {
                None
            } else {
                Some(
                    DeviceInfo {
                        width,
                        height,
                        buttons_per_row,
                        num_of_rows,
                        gap_size,
                        button_size: button_size as u32,
                        status_bar_height: (height - rows) as u32,
                    },
                )
            }
        }
    }

    /// The layout that a frame reports: its tag is `li`, and its first five
    /// arguments are the width, the height, the buttons in a row, the rows
    /// and the gap, from which a layout follows.
    pub open spec fn reported(tag: Seq<u8>, args: Seq<Seq<u8>>) -> Option<DeviceInfo> {
        if tag == TAG_LI@ && args.len() >= 5 && numeral_u32(args[0]) is Some && numeral_u32(
            args[1],
        ) is Some && numeral_u32(args[2]) is Some && numeral_u32(args[3]) is Some && numeral_u32(
            args[4],
        ) is Some {
            Self::derived(
                numeral_u32(args[0])->0,
                numeral_u32(args[1])->0,
                numeral_u32(args[2])->0,
                numeral_u32(args[3])->0,
                numeral_u32(args[4])->0,
            )
        } else {
            None
        }
    }

    /// The part of the display that the rows of buttons fill, without the gap
    /// below the last row: its width and its height. `None` where the rows
    /// are lower than one gap.
    pub open spec fn canvas(self) -> Option<(u32, u32)> {
        if self.height - self.gap_size - self.status_bar_height < 0 {
            None
        } else {
            Some((self.width, (self.height - self.gap_size - self.status_bar_height) as u32))
        }
    }

    pub fn derive(
        width: u32,
        height: u32,
        buttons_per_row: u32,
        num_of_rows: u32,
        gap_size: u32,
    ) -> (r: Option<DeviceInfo>)
        ensures
            r == Self::derived(width, height, buttons_per_row, num_of_rows, gap_size),
            r matches Some(info) ==> info.wf(),
    {
        if buttons_per_row == 0 {
            return None;
        }
        assert((buttons_per_row - 1) * gap_size <= 0xffff_ffff * 0xffff_ffff) by (nonlinear_arith)
            requires
                0 <= buttons_per_row - 1 <= 0xffff_ffff,
                0 <= gap_size <= 0xffff_ffff,
        ;
        let gaps: u64 = (buttons_per_row as u64 - 1) * (gap_size as u64);
        if gaps > width as u64 {
            return None;
        }
        let span: u64 = width as u64 - gaps;
        if span % (buttons_per_row as u64) != 0 {
            return None;
        }
        let button_size: u64 = span / (buttons_per_row as u64);
        assert(num_of_rows * (button_size + gap_size) <= 0xffff_ffff * 0x1_ffff_fffe)
            by (nonlinear_arith)
            requires
                0 <= num_of_rows <= 0xffff_ffff,
                0 <= button_size + gap_size <= 0x1_ffff_fffe,
        ;
        let rows: u128 = (num_of_rows as u128) * (button_size as u128 + gap_size as u128);
        if rows > height as u128 {
            return None;
        }
        Some(
            DeviceInfo {
                width,
                height,
                buttons_per_row,
                num_of_rows,
                gap_size,
                button_size: button_size as u32,
                status_bar_height: (height as u128 - rows) as u32,
            },
        )
    }

    /// Reads the layout from the answer of the device.
    pub fn from_response(frame: &Message) -> (r: Result<DeviceInfo, Error>)
        ensures
            match r {
                Ok(info) => Self::reported(frame.tag(), frame.args()) == Some(info) && info.wf(),
                Err(e) => e == Error::Protocol && Self::reported(frame.tag(), frame.args())
                    is None,
            },
    {
        if !frame.has_tag(TAG_LI.as_slice()) || frame.data.len() < 5 {
            return Err(Error::Protocol);
        }
        let width: Option<u32> = parse_u32(frame.data[0].as_slice());
        let height: Option<u32> = parse_u32(frame.data[1].as_slice());
        let buttons_per_row: Option<u32> = parse_u32(frame.data[2].as_slice());
        let num_of_rows: Option<u32> = parse_u32(frame.data[3].as_slice());
        let gap_size: Option<u32> = parse_u32(frame.data[4].as_slice());
        match (width, height, buttons_per_row, num_of_rows, gap_size) {
            (Some(w), Some(h), Some(b), Some(n), Some(g)) => match Self::derive(w, h, b, n, g) {
                Some(info) => Ok(info),
                None => Err(Error::Protocol),
            },
            _ => Err(Error::Protocol),
        }
    }

    /// The size of the picture that holds all the buttons of one directory:
    /// as wide as the display, and as high as the rows of buttons with the
    /// gaps between them.
    pub fn canvas_size(&self) -> (r: Option<(u32, u32)>)
        ensures
            r == self.canvas(),
    {
        if self.height < self.gap_size || self.height - self.gap_size < self.status_bar_height {
            return None;
        }
        Some((self.width, self.height - self.gap_size - self.status_bar_height))
    }
}

/// A layout that was derived is exact: the width less the gaps of a row
/// divides by the number of buttons in a row, and the height less the rows
/// is the height of the status bar.
pub proof fn law_derived_layout_is_exact(
    width: u32,
    height: u32,
    buttons_per_row: u32,
    num_of_rows: u32,
    gap_size: u32,
)
    ensures
        DeviceInfo::derived(width, height, buttons_per_row, num_of_rows, gap_size) matches Some(
            info,
        ) ==> {
            &&& info.width == width && info.height == height && info.buttons_per_row
                == buttons_per_row && info.num_of_rows == num_of_rows && info.gap_size == gap_size
            &&& (width - (buttons_per_row - 1) * gap_size) % (buttons_per_row as int) == 0
            &&& info.button_size * buttons_per_row == width - (buttons_per_row - 1) * gap_size
            &&& info.status_bar_height == height - num_of_rows * (info.button_size + gap_size)
            &&& info.wf()
        },
{
    if DeviceInfo::derived(width, height, buttons_per_row, num_of_rows, gap_size) is Some {
        let gaps = (buttons_per_row - 1) * gap_size;
        let span = width - gaps;
        let b = buttons_per_row as int;
        assert(0 <= span <= width);
        let q = span / b;
        assert(span == b * q + span % b) by (nonlinear_arith)
            requires
                b > 0,
                q == span / b,
        ;
        assert(0 <= q <= span) by (nonlinear_arith)
            requires
                b > 0,
                span >= 0,
                span == b * q,
        ;
        assert(q * b == b * q) by (nonlinear_arith);
        assert(num_of_rows * (q + gap_size) >= 0) by (nonlinear_arith)
            requires
                num_of_rows >= 0,
                q + gap_size >= 0,
        ;
    }
}

/// A frame that reports a layout reports an exact one.
pub proof fn law_reported_layout_is_exact(tag: Seq<u8>, args: Seq<Seq<u8>>)
    ensures
        DeviceInfo::reported(tag, args) matches Some(info) ==> info.wf(),
{
    if DeviceInfo::reported(tag, args) is Some {
        law_derived_layout_is_exact(
            numeral_u32(args[0])->0,
            numeral_u32(args[1])->0,
            numeral_u32(args[2])->0,
            numeral_u32(args[3])->0,
            numeral_u32(args[4])->0,
        );
    }
}

} // verus!
