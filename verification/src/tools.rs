//! Putting icon files into a configuration, and starting the server in the
//! background.

use vstd::prelude::*;
use vstd::string::*;
use crate::codec::{base64_encoding, encode_base64, fits_as_base64};
use crate::error::Error;
use crate::models::{ButtonConfig, Config};
use crate::ports::copy_texts;

verus! {

/// Whether a file or directory is passed over when icons are collected:
/// its name begins with a dot.
pub open spec fn is_hidden(name: Seq<char>) -> bool {
    name.len() > 0 && name[0] == '.'
}

pub fn is_hidden_name(name: &str) -> (r: bool)
    ensures
        r == is_hidden(name@),
{
    name.unicode_len() > 0 && name.get_char(0) == '.'
}

/// How many slashes `s` begins with.
pub open spec fn leading_slashes(s: Seq<char>) -> nat
    decreases s.len(),
{
    if s.len() == 0 || s[0] != '/' {
        0
    } else {
        1 + leading_slashes(s.drop_first())
    }
}

/// Where the last of the first `n` characters of `s` that is `c` stands.
pub open spec fn last_of(s: Seq<char>, c: char, n: int) -> Option<int>
    decreases n,
{
    if n <= 0 {
        None
    } else if s[n - 1] == c {
        Some(n - 1)
    } else {
        last_of(s, c, n - 1)
    }
}

/// `file` without `root` in front of it and without leading slashes.
pub open spec fn relative(root: Seq<char>, file: Seq<char>) -> Seq<char> {
    let rest = if root.len() <= file.len() && file.take(root.len() as int) == root {
        file.skip(root.len() as int)
    } else {
        file
    };
    rest.skip(leading_slashes(rest) as int)
}

/// `path` without the extension of its last component: without the last
/// dot of that component and what follows it, unless the component begins
/// with that dot.
pub open spec fn without_extension(path: Seq<char>) -> Seq<char> {
    let start = match last_of(path, '/', path.len() as int) {
        Some(slash) => slash + 1,
        None => 0,
    };
    match last_of(path, '.', path.len() as int) {
        Some(dot) => if dot > start {
            path.take(dot)
        } else {
            path
        },
        None => path,
    }
}

/// The path of the button that an icon file stands for: the path of the
/// file below the directory of icons, without its extension, behind a slash.
pub open spec fn button_path(root: Seq<char>, file: Seq<char>) -> Seq<char> {
    seq!['/'] + without_extension(relative(root, file))
}

fn find_last(s: &str, len: usize, c: char) -> (r: Option<usize>)
    requires
        len == s@.len(),
    ensures
        match r {
            Some(i) => last_of(s@, c, len as int) == Some(i as int) && i < len,
            None => last_of(s@, c, len as int) is None,
        },
{
    let mut n: usize = len;
    while n > 0
        invariant
            n <= len,
            len == s@.len(),
            last_of(s@, c, len as int) == last_of(s@, c, n as int),
        decreases n,
    {
        if s.get_char(n - 1) == c {
            return Some(n - 1);
        }
        n -= 1;
    }
    None
}

fn starts_with_text(s: &str, len: usize, prefix: &str) -> (r: bool)
    requires
        len == s@.len(),
    ensures
        r == (prefix@.len() <= s@.len() && s@.take(prefix@.len() as int) == prefix@),
{
    let size: usize = prefix.unicode_len();
    if size > len {
        return false;
    }
    let mut i: usize = 0;
    while i < size
        invariant
            i <= size <= len,
            size == prefix@.len(),
            len == s@.len(),
            forall|j: int| 0 <= j < i ==> s@[j] == prefix@[j],
        decreases size - i,
    {
        if s.get_char(i) != prefix.get_char(i) {
            assert(s@.take(size as int)[i as int] != prefix@[i as int]);
            return false;
        }
        i += 1;
    }
    assert(s@.take(size as int) =~= prefix@);
    true
}

/// The path of the button that the icon file `file` below `root` stands for.
pub fn icon_name(root: &str, file: &str) -> (r: String)
    ensures
        r@ == button_path(root@, file@),
{
    let len: usize = file.unicode_len();
    let from: usize = if starts_with_text(file, len, root) {
        root.unicode_len()
    } else {
        0
    };
    let ghost rest = file@.skip(from as int);
    assert(from == 0 ==> rest =~= file@);
    let mut start: usize = from;
    while start < len && file.get_char(start) == '/'
        invariant
            from <= start <= len,
            len == file@.len(),
            rest == file@.skip(from as int),
            leading_slashes(rest) == (start - from) + leading_slashes(file@.skip(start as int)),
        decreases len - start,
    {
        proof {
            let here = file@.skip(start as int);
            assert(here[0] == file@[start as int]);
            assert(here.drop_first() =~= file@.skip(start + 1));
        }
        start += 1;
    }
    proof {
        let here = file@.skip(start as int);
        if start < len {
            assert(here[0] == file@[start as int]);
        }
        assert(leading_slashes(here) == 0);
        assert(rest.skip(start - from) =~= file@.skip(start as int));
    }
    let below: &str = file.substring_char(start, len);
    assert(below@ =~= relative(root@, file@));
    let size: usize = len - start;
    let component: usize = match find_last(below, size, '/') {
        Some(slash) => slash + 1,
        None => 0,
    };
    let end: usize = match find_last(below, size, '.') {
        Some(dot) => if dot > component {
            dot
        } else {
            size
        },
        None => size,
    };
    let mut name: String = String::from_str("/");
    proof {
        reveal_strlit("/");
        assert("/"@ =~= seq!['/']);
        assert(below@.take(size as int) =~= below@);
    }
    name.append(below.substring_char(0, end));
    name
}

/// The buttons with `icon` as the icon of the button at `path`: in the
/// place of the icon that it had, or as a new button that has nothing else.
pub open spec fn with_icon(
    buttons: Seq<(String, ButtonConfig)>,
    path: String,
    icon: String,
    at: int,
) -> Seq<(String, ButtonConfig)> {
    if 0 <= at < buttons.len() {
        buttons.update(
            at,
            (
                buttons[at].0,
                ButtonConfig { command: buttons[at].1.command, args: buttons[at].1.args, icon: Some(
                    icon,
                ) },
            ),
        )
    } else {
        buttons.push((path, ButtonConfig { command: None, args: None, icon: Some(icon) }))
    }
}

/// Where the first button with the path `path` stands, or the number of
/// buttons where there is none.
pub open spec fn index_of(buttons: Seq<(String, ButtonConfig)>, path: Seq<char>, from: int) -> int
    decreases buttons.len() - from,
{
    if from < 0 || from >= buttons.len() {
        buttons.len() as int
    } else if buttons[from].0@ == path {
        from
    } else {
        index_of(buttons, path, from + 1)
    }
}

/// The index that `index_of` gives is the first at which the path stands.
proof fn lemma_index_is_first(buttons: Seq<(String, ButtonConfig)>, path: Seq<char>, from: int)
    requires
        0 <= from <= buttons.len(),
    ensures
        from <= index_of(buttons, path, from) <= buttons.len(),
        index_of(buttons, path, from) < buttons.len() ==> buttons[index_of(
            buttons,
            path,
            from,
        )].0@ == path,
        forall|j: int| from <= j < index_of(buttons, path, from) ==> (#[trigger] buttons[j]).0@
            != path,
    decreases buttons.len() - from,
{
    if from < buttons.len() && buttons[from].0@ != path {
        lemma_index_is_first(buttons, path, from + 1);
    }
}

fn copy_args(args: &Option<Vec<String>>) -> (r: Option<Vec<String>>)
    ensures
        match (r, *args) {
            (Some(a), Some(b)) => a@ == b@,
            (None, None) => true,
            _ => false,
        },
{
    match args {
        Some(list) => Some(copy_texts(list)),
        None => None,
    }
}

/// Two buttons that run the same and show the same.
pub open spec fn same_button(a: ButtonConfig, b: ButtonConfig) -> bool {
    &&& a.command == b.command
    &&& a.icon == b.icon
    &&& match (a.args, b.args) {
        (Some(x), Some(y)) => x@ == y@,
        (None, None) => true,
        _ => false,
    }
}

/// The same buttons at the same paths, in the same order.
pub open spec fn same_buttons(a: Seq<(String, ButtonConfig)>, b: Seq<(String, ButtonConfig)>)
    -> bool {
    a.len() == b.len() && forall|i: int|
        0 <= i < a.len() ==> (#[trigger] a[i]).0 == b[i].0 && same_button(a[i].1, b[i].1)
}

impl Config {
    /// The buttons, none where the configuration has no list of them.
    pub open spec fn button_list(self) -> Seq<(String, ButtonConfig)> {
        match self.buttons {
            Some(b) => b@,
            None => Seq::empty(),
        }
    }

    /// Gives the button at `path` the icon `icon`, which is base64 text.
    /// A button that is not there yet is added, with nothing but the icon.
    pub fn set_icon(&mut self, path: String, icon: String)
        ensures
            final(self).status == old(self).status,
            final(self).buttons is Some,
            old(self).wf() ==> final(self).wf(),
            same_buttons(
                final(self).button_list(),
                with_icon(
                    old(self).button_list(),
                    path,
                    icon,
                    index_of(old(self).button_list(), path@, 0),
                ),
            ),
    {
        let ghost before = self.button_list();
        let mut buttons: Vec<(String, ButtonConfig)> = match self.buttons.take() {
            Some(b) => b,
            None => Vec::new(),
        };
        assert(buttons@ =~= before);
        let mut i: usize = 0;
        while i < buttons.len() && !(buttons[i].0 == path)
            invariant
                i <= buttons@.len(),
                buttons@ == before,
                index_of(before, path@, 0) == index_of(before, path@, i as int),
            decreases buttons@.len() - i,
        {
            i += 1;
        }
        let ghost want = with_icon(before, path, icon, i as int);
        proof {
            lemma_index_is_first(before, path@, 0);
        }
        if i < buttons.len() {
            let command: Option<String> = match &buttons[i].1.command {
                Some(c) => Some(c.clone()),
                None => None,
            };
            let entry = ButtonConfig { command, args: copy_args(&buttons[i].1.args), icon: Some(icon) };
            let key: String = buttons[i].0.clone();
            buttons[i] = (key, entry);
        } else {
            buttons.push((path, ButtonConfig { command: None, args: None, icon: Some(icon) }));
        }
        assert(same_buttons(buttons@, want));
        self.buttons = Some(buttons);
    }

    /// Gives the button at `path` the bytes of an image file as its icon.
    /// An error where the file is too large to be written as text.
    pub fn set_icon_file(&mut self, path: String, file: &[u8]) -> (r: Result<(), Error>)
        ensures
            old(self).wf() ==> final(self).wf(),
            r is Ok <==> fits_as_base64(file@),
            r is Err ==> *final(self) == *old(self) && r == Err::<(), Error>(Error::Image),
            r is Ok ==> final(self).status == old(self).status && final(self).buttons is Some
                && exists|text: String|
                text@ == base64_encoding(file@) && #[trigger] same_buttons(
                    final(self).button_list(),
                    with_icon(
                        old(self).button_list(),
                        path,
                        text,
                        index_of(old(self).button_list(), path@, 0),
                    ),
                ),
    {
        match encode_base64(file) {
            None => Err(Error::Image),
            Some(text) => {
                self.set_icon(path, text);
                Ok(())
            },
        }
    }
}

/// The arguments with which the server is started in the background: the
/// start in the foreground, and each option that was given.
pub open spec fn background_arguments(
    port: Option<String>,
    config_path: Option<String>,
    tcp_port: Option<String>,
) -> Seq<Seq<char>> {
    seq!["start"@, "--foreground"@] + (match port {
        Some(p) => seq!["--port"@, p@],
        None => Seq::empty(),
    }) + (match config_path {
        Some(c) => seq!["--config-path"@, c@],
        None => Seq::empty(),
    }) + (match tcp_port {
        Some(t) => seq!["--tcp-port"@, t@],
        None => Seq::empty(),
    })
}

pub open spec fn text_views(v: Seq<String>) -> Seq<Seq<char>> {
    Seq::new(v.len(), |i: int| v[i]@)
}

fn push_option(args: &mut Vec<String>, name: &str, value: &Option<String>)
    ensures
        text_views(final(args)@) == text_views(old(args)@) + (match *value {
            Some(v) => seq![name@, v@],
            None => Seq::empty(),
        }),
{
    let ghost before = text_views(args@);
    match value {
        Some(v) => {
            let flag: String = String::from_str(name);
            let copy: String = v.clone();
            args.push(flag);
            args.push(copy);
            assert(text_views(args@) =~= before + seq![name@, v@]);
        },
        None => {
            assert(text_views(args@) =~= before + Seq::<Seq<char>>::empty());
        },
    }
}

/// The arguments with which the server is started in the background.
pub fn background_start(
    port: &Option<String>,
    config_path: &Option<String>,
    tcp_port: &Option<String>,
) -> (r: Vec<String>)
    ensures
        text_views(r@) == background_arguments(*port, *config_path, *tcp_port),
{
    let mut args: Vec<String> = Vec::new();
    args.push(String::from_str("start"));
    args.push(String::from_str("--foreground"));
    assert(text_views(args@) =~= seq!["start"@, "--foreground"@]);
    push_option(&mut args, "--port", port);
    push_option(&mut args, "--config-path", config_path);
    push_option(&mut args, "--tcp-port", tcp_port);
    args
}

} // verus!
