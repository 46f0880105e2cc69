//! The wire frame codec.
//!
//! A frame is a short tag and a list of arguments. On the wire it is the
//! decimal length of the tag, the tag, and then each argument behind a single
//! blank.

use vstd::prelude::*;
use vstd::utf8::{encode_utf8, valid_utf8};
use crate::bytes::{
    copy_range, decimal_digits, format_decimal, is_digit, is_space, is_space_byte,
    lemma_decimal_digits_are_digits, same_bytes, text_of, views, SPACE,
};

verus! {

/// `li`: the layout of the device, asked for and answered.
pub const TAG_LI: [u8; 2] = [0x6c, 0x69];

/// `ri`: read the icon at a path.
pub const TAG_RI: [u8; 2] = [0x72, 0x69];

/// `rd`: ready for the bytes that were announced.
pub const TAG_RD: [u8; 2] = [0x72, 0x64];

/// `rd?`: the device announces so many bytes and asks whether to send them.
pub const TAG_RD_ASK: [u8; 3] = [0x72, 0x64, 0x3f];

/// `wi`: write an icon of so many bytes at a path.
pub const TAG_WI: [u8; 2] = [0x77, 0x69];

/// `ss`: set a part of the status bar.
pub const TAG_SS: [u8; 2] = [0x73, 0x73];

/// `ld`: the directories on the device, asked for and answered.
pub const TAG_LD: [u8; 2] = [0x6c, 0x64];

/// `sp`: set the profile.
pub const TAG_SP: [u8; 2] = [0x73, 0x70];

/// `cf`: create a folder.
pub const TAG_CF: [u8; 2] = [0x63, 0x66];

/// `di`: delete an icon.
pub const TAG_DI: [u8; 2] = [0x64, 0x69];

/// `df`: delete a folder.
pub const TAG_DF: [u8; 2] = [0x64, 0x66];

/// `ok`: the device has done what was asked.
pub const TAG_OK: [u8; 2] = [0x6f, 0x6b];

/// `bc`: a button was clicked.
pub const TAG_BC: [u8; 2] = [0x62, 0x63];

/// `sc`: the status bar was clicked.
pub const TAG_SC: [u8; 2] = [0x73, 0x63];

/// A frame: its tag and its arguments.
#[derive(Clone, Debug)]
pub struct Message {
    pub message_type: Vec<u8>,
    pub data: Vec<Vec<u8>>,
}

/// Each argument behind one blank.
pub open spec fn joined(args: Seq<Seq<u8>>) -> Seq<u8>
    decreases args.len(),
{
    if args.len() == 0 {
        Seq::empty()
    } else {
        seq![SPACE] + args.first() + joined(args.drop_first())
    }
}

/// The bytes of the frame with tag `tag` and arguments `args`.
pub open spec fn encoding(tag: Seq<u8>, args: Seq<Seq<u8>>) -> Seq<u8> {
    decimal_digits(tag.len()) + tag + joined(args)
}

/// The length of the run of bytes at the start of `s` that are no white space.
pub open spec fn word_len(s: Seq<u8>) -> nat
    decreases s.len(),
{
    if s.len() == 0 || is_space(s[0]) {
        0
    } else {
        1 + word_len(s.skip(1))
    }
}

/// The maximal runs of bytes of `s` that are no white space, in order.
pub open spec fn words(s: Seq<u8>) -> Seq<Seq<u8>>
    decreases s.len(),
{
    if s.len() == 0 {
        Seq::empty()
    } else if is_space(s[0]) {
        words(s.skip(1))
    } else {
        let n = word_len(s) as int;
        if 1 <= n <= s.len() {
            seq![s.take(n)] + words(s.skip(n))
        } else {
            Seq::empty()
        }
    }
}

/// The frame that `data` holds: one digit `k`, the `k` bytes of the tag, and
/// the rest split at white space. `None` where `data` does not start with a
/// digit or is too short for its tag.
pub open spec fn decoding(data: Seq<u8>) -> Option<(Seq<u8>, Seq<Seq<u8>>)> {
    if data.len() == 0 || !is_digit(data[0]) {
        None
    } else {
        let k = (data[0] - 0x30) as int;
        if data.len() < 1 + k {
            None
        } else {
            Some((data.subrange(1, 1 + k), words(data.skip(1 + k))))
        }
    }
}

/// An argument survives the wire: it is not empty and holds no white space.
pub open spec fn is_word(arg: Seq<u8>) -> bool {
    arg.len() > 0 && forall|j: int| 0 <= j < arg.len() ==> !is_space(#[trigger] arg[j])
}

/// A run of `n` bytes without white space that ends at the end of `s` or at
/// white space is the first word of `s`.
pub proof fn lemma_word_len_is(s: Seq<u8>, n: int)
    requires
        0 <= n <= s.len(),
        forall|j: int| 0 <= j < n ==> !is_space(#[trigger] s[j]),
        n < s.len() ==> is_space(s[n]),
    ensures
        word_len(s) == n,
    decreases n,
{
    if n > 0 {
        assert(!is_space(s[0]));
        assert forall|j: int| 0 <= j < n - 1 implies !is_space(#[trigger] s.skip(1)[j]) by {
            assert(s.skip(1)[j] == s[j + 1]);
        }
        if n - 1 < s.skip(1).len() {
            assert(s.skip(1)[n - 1] == s[n]);
        }
        lemma_word_len_is(s.skip(1), n - 1);
    }
}

/// The arguments that were joined are the words of the result.
pub proof fn lemma_words_of_joined(args: Seq<Seq<u8>>)
    requires
        forall|i: int| 0 <= i < args.len() ==> is_word(#[trigger] args[i]),
    ensures
        words(joined(args)) == args,
    decreases args.len(),
{
    if args.len() == 0 {
        assert(words(joined(args)) =~= args);
    } else {
        let first = args.first();
        let rest = args.drop_first();
        assert(is_word(args[0]));
        assert forall|i: int| 0 <= i < rest.len() implies is_word(#[trigger] rest[i]) by {
            assert(rest[i] == args[i + 1]);
        }
        lemma_words_of_joined(rest);
        let whole = joined(args);
        let tail = first + joined(rest);
        assert(whole =~= seq![SPACE] + tail);
        assert(is_space(whole[0]));
        assert(whole.skip(1) =~= tail);
        assert(words(whole) == words(tail));
        assert forall|j: int| 0 <= j < first.len() implies !is_space(#[trigger] tail[j]) by {
            assert(tail[j] == first[j]);
        }
        if first.len() < tail.len() {
            assert(rest.len() > 0);
            assert(tail[first.len() as int] == joined(rest)[0]);
            assert(joined(rest)[0] == SPACE);
        }
        lemma_word_len_is(tail, first.len() as int);
        assert(tail.take(first.len() as int) =~= first);
        assert(tail.skip(first.len() as int) =~= joined(rest));
        assert(words(tail) =~= seq![first] + rest);
        assert(seq![first] + rest =~= args);
    }
}

/// Decoding inverts encoding: a frame whose tag has at most nine bytes and
/// whose arguments are not empty and hold no white space comes back from its
/// own encoding unchanged.
pub proof fn law_decode_inverts_encode(tag: Seq<u8>, args: Seq<Seq<u8>>)
    requires
        tag.len() <= 9,
        forall|i: int| 0 <= i < args.len() ==> is_word(#[trigger] args[i]),
    ensures
        decoding(encoding(tag, args)) == Some((tag, args)),
{
    let data = encoding(tag, args);
    lemma_decimal_digits_are_digits(tag.len());
    let digits = decimal_digits(tag.len());
    assert(digits.len() == 1);
    assert(digits[0] == (0x30 + tag.len()) as u8);
    assert(data[0] == digits[0]);
    let k = (data[0] - 0x30) as int;
    assert(k == tag.len());
    assert(data.subrange(1, 1 + k) =~= tag);
    assert(data.skip(1 + k) =~= joined(args));
    lemma_words_of_joined(args);
}

impl Message {
    pub open spec fn tag(&self) -> Seq<u8> {
        self.message_type@
    }

    pub open spec fn args(&self) -> Seq<Seq<u8>> {
        views(self.data@)
    }

    pub fn new(message_type: Vec<u8>, data: Vec<Vec<u8>>) -> (m: Message)
        ensures
            m.message_type == message_type,
            m.data == data,
    {
        Message { message_type, data }
    }

    /// Whether the tag of this frame is `tag`.
    pub fn has_tag(&self, tag: &[u8]) -> (r: bool)
        ensures
            r == (self.tag() == tag@),
    {
        same_bytes(self.message_type.as_slice(), tag)
    }

    /// The bytes of this frame, without a line end.
    pub fn encode(&self) -> (out: Vec<u8>)
        ensures
            out@ == encoding(self.tag(), self.args()),
    {
        let mut out: Vec<u8> = format_decimal(self.message_type.len() as u64);
        out.extend_from_slice(self.message_type.as_slice());
        let ghost args = self.args();
        let mut i: usize = 0;
        assert(args.skip(0) =~= args);
        while i < self.data.len()
            invariant
                i <= self.data@.len(),
                args == self.args(),
                out@ + joined(args.skip(i as int)) == encoding(self.tag(), args),
            decreases self.data@.len() - i,
        {
            let ghost before = out@;
            let ghost rest = args.skip(i as int);
            out.push(SPACE);
            out.extend_from_slice(self.data[i].as_slice());
            proof {
                assert(rest.first() == self.data@[i as int]@);
                assert(rest.drop_first() =~= args.skip(i + 1));
                assert(out@ =~= before + seq![SPACE] + rest.first());
                assert(out@ + joined(args.skip(i + 1)) =~= before + joined(rest));
            }
            i += 1;
        }
        assert(joined(args.skip(i as int)) =~= Seq::<u8>::empty());
        assert(out@ + Seq::<u8>::empty() =~= out@);
        out
    }

    /// The frame as text, as it stands on the wire. `None` where its bytes
    /// are no text.
    pub fn to_string(&self) -> (r: Option<String>)
        ensures
            r is Some <==> valid_utf8(encoding(self.tag(), self.args())),
            r matches Some(text) ==> encode_utf8(text@) == encoding(self.tag(), self.args()),
    {
        text_of(self.encode().as_slice())
    }

    /// Reads a frame from the bytes of one line.
    pub fn decode(data: &[u8]) -> (r: Option<Message>)
        ensures
            match r {
                Some(m) => decoding(data@) == Some((m.tag(), m.args())),
                None => decoding(data@) is None,
            },
    {
        let n: usize = data.len();
        if n == 0 {
            return None;
        }
        let first: u8 = data[0];
        if first < 0x30 || first > 0x39 {
            return None;
        }
        let k: usize = (first - 0x30) as usize;
        if n - 1 < k {
            return None;
        }
        let message_type: Vec<u8> = copy_range(data, 1, 1 + k);
        let ghost rest: Seq<u8> = data@.skip(1 + k);
        let mut args: Vec<Vec<u8>> = Vec::new();
        let mut i: usize = 1 + k;
        assert(views(args@) =~= Seq::<Seq<u8>>::empty());
        assert(data@.skip(i as int) =~= rest);
        assert(Seq::<Seq<u8>>::empty() + words(rest) =~= words(rest));
        loop
            invariant
                1 + k <= i <= n,
                n == data@.len(),
                rest == data@.skip(1 + k),
                views(args@) + words(data@.skip(i as int)) == words(rest),
            ensures
                views(args@) == words(rest),
            decreases n - i,
        {
            let ghost entry: usize = i;
            while i < n && is_space_byte(data[i])
                invariant
                    1 + k <= entry <= i <= n,
                    n == data@.len(),
                    views(args@) + words(data@.skip(i as int)) == words(rest),
                decreases n - i,
            {
                proof {
                    let s = data@.skip(i as int);
                    assert(s[0] == data@[i as int]);
                    assert(s.skip(1) =~= data@.skip(i + 1));
                }
                i += 1;
            }
            if i == n {
                proof {
                    assert(data@.skip(i as int).len() == 0);
                    assert(views(args@) + Seq::<Seq<u8>>::empty() =~= views(args@));
                }
                break;
            }
            let start: usize = i;
            let ghost s: Seq<u8> = data@.skip(start as int);
            assert(s[0] == data@[start as int]);
            i += 1;
            while i < n && !is_space_byte(data[i])
                invariant
                    entry <= start < i <= n,
                    n == data@.len(),
                    s == data@.skip(start as int),
                    forall|j: int| 0 <= j < i - start ==> !is_space(#[trigger] s[j]),
                decreases n - i,
            {
                assert(s[i - start] == data@[i as int]);
                i += 1;
            }
            let word: Vec<u8> = copy_range(data, start, i);
            proof {
                if i < n {
                    assert(s[i - start] == data@[i as int]);
                }
                lemma_word_len_is(s, i - start);
                assert(s.take(i - start) =~= word@);
                assert(s.skip(i - start) =~= data@.skip(i as int));
                assert(words(s) == seq![word@] + words(data@.skip(i as int)));
            }
            let ghost before = views(args@);
            args.push(word);
            proof {
                assert(views(args@) =~= before + seq![word@]);
                assert(views(args@) + words(data@.skip(i as int)) =~= before + words(s));
            }
        }
        proof {
            assert(data@.subrange(1, 1 + k) == message_type@);
        }
        Some(Message { message_type, data: args })
    }
}

} // verus!
