//! The configuration: what each button does and shows.

use vstd::prelude::*;
use vstd::utf8::encode_utf8;

verus! {

/// The bytes of a text.
pub open spec fn bytes_of(s: String) -> Seq<u8> {
    encode_utf8(s@)
}

/// The bytes of a text.
pub fn text_bytes(s: &String) -> (b: &[u8])
    ensures
        b@ == bytes_of(*s),
{
    s.as_str().as_bytes()
}

/// What a button does and shows: the command that a click runs, with its
/// arguments, and the icon, an image file as base64 text. Each may be
/// missing.
#[derive(Clone, Debug)]
pub struct ButtonConfig {
    pub command: Option<String>,
    pub args: Option<Vec<String>>,
    pub icon: Option<String>,
}

/// The buttons by their paths on the device, each path once, and the status
/// bar. The path of a button ends with its position in its directory.
#[derive(Clone, Debug)]
pub struct Config {
    pub buttons: Option<Vec<(String, ButtonConfig)>>,
    pub status: Option<ButtonConfig>,
}

impl ButtonConfig {
    pub open spec fn icon_text(self) -> Option<Seq<u8>> {
        match self.icon {
            Some(text) => Some(bytes_of(text)),
            None => None,
        }
    }
}

impl Config {
    /// No two buttons have the same path.
    pub open spec fn wf(self) -> bool {
        self.buttons matches Some(buttons) ==> forall|i: int, j: int|
            0 <= i < j < buttons@.len() ==> (#[trigger] buttons@[i]).0@ != (
            #[trigger] buttons@[j]).0@
    }

    /// The path and the icon text of each button, in order.
    pub open spec fn button_icons(self) -> Seq<(Seq<u8>, Option<Seq<u8>>)> {
        match self.buttons {
            None => Seq::empty(),
            Some(buttons) => Seq::new(
                buttons@.len(),
                |i: int| (bytes_of(buttons@[i].0), buttons@[i].1.icon_text()),
            ),
        }
    }
}

} // verus!
