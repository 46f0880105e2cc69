//! The names of serial ports: how they are shown, which one is taken when
//! none was named, and under which path a named one is opened.

use vstd::prelude::*;
use vstd::string::*;
use crate::paths::with_all;

verus! {

/// The system whose names for serial devices are to be used.
#[derive(Clone, Copy, Debug, PartialEq, Eq, Structural)]
pub enum Platform {
    Linux,
    MacOs,
    /// Any other system with device paths.
    Unix,
    /// A system without device paths.
    Other,
}

/// `pattern` stands in `name` at `at`.
pub open spec fn stands_at(name: Seq<char>, at: int, pattern: Seq<char>) -> bool {
    0 <= at && at + pattern.len() <= name.len() && name.subrange(at, at + pattern.len())
        == pattern
}

/// Where the device prefix that begins at `at` ends: behind `/dev/cu` or
/// `/dev/tty`.
pub open spec fn prefix_end(name: Seq<char>, at: int) -> Option<int> {
    if stands_at(name, at, "/dev/cu"@) {
        Some(at + "/dev/cu"@.len())
    } else if stands_at(name, at, "/dev/tty"@) {
        Some(at + "/dev/tty"@.len())
    } else {
        None
    }
}

/// Where the first device prefix at or behind `from` ends.
pub open spec fn first_prefix_end(name: Seq<char>, from: int) -> Option<int>
    decreases name.len() - from,
{
    if from < 0 || from >= name.len() {
        None
    } else {
        match prefix_end(name, from) {
            Some(end) => Some(end),
            None => first_prefix_end(name, from + 1),
        }
    }
}

/// Where the line that `from` lies in ends: at the first line feed at or
/// behind `from`, or at the end of `name`.
pub open spec fn line_end(name: Seq<char>, from: int) -> int
    decreases name.len() - from,
{
    if from < 0 || from >= name.len() {
        name.len() as int
    } else if name[from] == '\n' {
        from
    } else {
        line_end(name, from + 1)
    }
}

/// Whether the name holds a device prefix, `/dev/cu` or `/dev/tty`.
pub open spec fn is_device_path(name: Seq<char>) -> bool {
    first_prefix_end(name, 0) is Some
}

/// How a port is shown: what stands behind the first device prefix, and
/// behind one dot after it, up to the end of the line. A name without a
/// device prefix is shown as it is.
pub open spec fn label(name: Seq<char>) -> Seq<char> {
    match first_prefix_end(name, 0) {
        None => name,
        Some(end) => {
            let from = if end < name.len() && name[end] == '.' {
                end + 1
            } else {
                end
            };
            name.subrange(from, line_end(name, from))
        },
    }
}

pub open spec fn texts(names: Seq<String>) -> Seq<Seq<char>> {
    Seq::new(names.len(), |i: int| names[i]@)
}

pub open spec fn labels(names: Seq<Seq<char>>) -> Seq<Seq<char>> {
    Seq::new(names.len(), |i: int| label(names[i]))
}

/// How the ports are listed. Where device paths are in use, that is their
/// labels, each once, in the order in which they first occur; elsewhere the
/// names as they are.
pub open spec fn shown(names: Seq<Seq<char>>, platform: Platform) -> Seq<Seq<char>> {
    match platform {
        Platform::Other => names,
        _ => with_all(Seq::empty(), labels(names)),
    }
}

/// Whether a label is that of a port that is never the device.
pub open spec fn is_set_aside(label: Seq<char>) -> bool {
    label == "debug-console"@ || label == "Bluetooth-Incoming-Port"@
}

/// Those of `labels` that may be the device, in order.
pub open spec fn candidates(labels: Seq<Seq<char>>) -> Seq<Seq<char>>
    decreases labels.len(),
{
    if labels.len() == 0 {
        labels
    } else if is_set_aside(labels.last()) {
        candidates(labels.drop_last())
    } else {
        candidates(labels.drop_last()).push(labels.last())
    }
}

/// The port that is taken when none was named: the one candidate among the
/// ports that are there, and none where there are several or none. Where
/// device paths are not in use no port is ever taken.
pub open spec fn detected(names: Seq<Seq<char>>, platform: Platform) -> Option<Seq<char>> {
    let found = candidates(shown(names, platform));
    if platform != Platform::Other && found.len() == 1 {
        Some(found[0])
    } else {
        None
    }
}

/// The path under which a port is opened. A name that holds a device prefix
/// is a path already. Any other gets the prefix of the platform: `/dev/tty`
/// on Linux, `/dev/cu.` on macOS, none elsewhere, where none is known.
pub open spec fn device_path(name: Seq<char>, platform: Platform) -> Seq<char> {
    if is_device_path(name) {
        name
    } else {
        match platform {
            Platform::Linux => "/dev/tty"@ + name,
            Platform::MacOs => "/dev/cu."@ + name,
            Platform::Unix => name,
            Platform::Other => name,
        }
    }
}

fn has_at(name: &str, len: usize, at: usize, pattern: &str) -> (r: bool)
    requires
        len == name@.len(),
        at <= len,
    ensures
        r == stands_at(name@, at as int, pattern@),
{
    let size: usize = pattern.unicode_len();
    if size > len - at {
        return false;
    }
    let mut i: usize = 0;
    while i < size
        invariant
            i <= size,
            size == pattern@.len(),
            len == name@.len(),
            at + size <= len,
            forall|j: int| 0 <= j < i ==> name@[at + j] == pattern@[j],
        decreases size - i,
    {
        if name.get_char(at + i) != pattern.get_char(i) {
            assert(name@.subrange(at as int, at + size)[i as int] != pattern@[i as int]);
            return false;
        }
        i += 1;
    }
    assert(name@.subrange(at as int, at + size) =~= pattern@);
    true
}

/// Where the first device prefix of `name` ends.
fn find_prefix_end(name: &str, len: usize) -> (r: Option<usize>)
    requires
        len == name@.len(),
    ensures
        match r {
            Some(end) => first_prefix_end(name@, 0) == Some(end as int) && end <= len,
            None => first_prefix_end(name@, 0) is None,
        },
{
    let cu: &str = "/dev/cu";
    let tty: &str = "/dev/tty";
    let mut at: usize = 0;
    while at < len
        invariant
            at <= len,
            len == name@.len(),
            cu@ == "/dev/cu"@,
            tty@ == "/dev/tty"@,
            first_prefix_end(name@, 0) == first_prefix_end(name@, at as int),
        decreases len - at,
    {
        if has_at(name, len, at, cu) {
            let size: usize = cu.unicode_len();
            return Some(at + size);
        }
        if has_at(name, len, at, tty) {
            let size: usize = tty.unicode_len();
            return Some(at + size);
        }
        at += 1;
    }
    None
}

/// How a port is shown.
pub fn port_label(name: &str) -> (r: String)
    ensures
        r@ == label(name@),
{
    let len: usize = name.unicode_len();
    match find_prefix_end(name, len) {
        None => name.to_owned(),
        Some(end) => {
            let from: usize = if end < len && name.get_char(end) == '.' {
                end + 1
            } else {
                end
            };
            let mut to: usize = from;
            while to < len && name.get_char(to) != '\n'
                invariant
                    from <= to <= len,
                    len == name@.len(),
                    line_end(name@, from as int) == line_end(name@, to as int),
                decreases len - to,
            {
                to += 1;
            }
            name.substring_char(from, to).to_owned()
        },
    }
}

/// Whether the name holds a device prefix.
pub fn names_device(name: &str) -> (r: bool)
    ensures
        r == is_device_path(name@),
{
    let len: usize = name.unicode_len();
    find_prefix_end(name, len).is_some()
}

fn has_text(list: &Vec<String>, text: &String) -> (r: bool)
    ensures
        r == texts(list@).contains(text@),
{
    let mut i: usize = 0;
    while i < list.len()
        invariant
            i <= list@.len(),
            forall|j: int| 0 <= j < i ==> texts(list@)[j] != text@,
        decreases list@.len() - i,
    {
        if list[i] == *text {
            assert(texts(list@)[i as int] == text@);
            return true;
        }
        i += 1;
    }
    false
}

/// A second list with the same texts.
pub fn copy_texts(list: &Vec<String>) -> (r: Vec<String>)
    ensures
        r@ == list@,
{
    let mut out: Vec<String> = Vec::new();
    let mut i: usize = 0;
    while i < list.len()
        invariant
            i <= list@.len(),
            out@ == list@.take(i as int),
        decreases list@.len() - i,
    {
        out.push(list[i].clone());
        i += 1;
        assert(out@ =~= list@.take(i as int));
    }
    assert(list@.take(i as int) =~= list@);
    out
}

/// How the ports are listed on `platform`.
pub fn format_ports_name(ports: &Vec<String>, platform: Platform) -> (r: Vec<String>)
    ensures
        texts(r@) == shown(texts(ports@), platform),
{
    match platform {
        Platform::Other => {
            return copy_texts(ports);
        },
        _ => {},
    }
    let mut out: Vec<String> = Vec::new();
    let ghost all = labels(texts(ports@));
    let mut i: usize = 0;
    assert(texts(out@) =~= Seq::<Seq<char>>::empty());
    assert(all.skip(0) =~= all);
    while i < ports.len()
        invariant
            i <= ports@.len(),
            platform != Platform::Other,
            all == labels(texts(ports@)),
            with_all(texts(out@), all.skip(i as int)) == shown(texts(ports@), platform),
        decreases ports@.len() - i,
    {
        let shown_as: String = port_label(ports[i].as_str());
        proof {
            let rest = all.skip(i as int);
            assert(rest.first() == shown_as@);
            assert(rest.drop_first() =~= all.skip(i + 1));
        }
        if !has_text(&out, &shown_as) {
            let ghost before = texts(out@);
            out.push(shown_as);
            assert(texts(out@) =~= before.push(shown_as@));
        }
        i += 1;
    }
    out
}

/// The port to take when none was named, given the names of the ports that
/// are there: their labels without those that are never the device, if that
/// leaves exactly one.
pub fn auto_detect_port(ports: &Vec<String>, platform: Platform) -> (r: Option<String>)
    ensures
        match r {
            Some(port) => detected(texts(ports@), platform) == Some(port@),
            None => detected(texts(ports@), platform) is None,
        },
{
    match platform {
        Platform::Other => {
            return None;
        },
        _ => {},
    }
    let shown_ports: Vec<String> = format_ports_name(ports, platform);
    let console: String = String::from_str("debug-console");
    let bluetooth: String = String::from_str("Bluetooth-Incoming-Port");
    let mut found: Vec<String> = Vec::new();
    let mut i: usize = 0;
    assert(texts(found@) =~= Seq::<Seq<char>>::empty());
    assert(texts(shown_ports@).take(0) =~= Seq::<Seq<char>>::empty());
    while i < shown_ports.len()
        invariant
            i <= shown_ports@.len(),
            console@ == "debug-console"@,
            bluetooth@ == "Bluetooth-Incoming-Port"@,
            texts(found@) == candidates(texts(shown_ports@).take(i as int)),
        decreases shown_ports@.len() - i,
    {
        proof {
            let upto = texts(shown_ports@).take(i + 1);
            assert(upto.drop_last() =~= texts(shown_ports@).take(i as int));
            assert(upto.last() == shown_ports@[i as int]@);
        }
        if !(shown_ports[i] == console) && !(shown_ports[i] == bluetooth) {
            let ghost before = texts(found@);
            let copy: String = shown_ports[i].clone();
            found.push(copy);
            assert(texts(found@) =~= before.push(copy@));
        }
        i += 1;
    }
    assert(texts(shown_ports@).take(i as int) =~= texts(shown_ports@));
    assert(texts(found@).len() == found@.len());
    if found.len() == 1 {
        assert(texts(found@)[0] == found@[0]@);
        Some(found[0].clone())
    } else {
        None
    }
}

/// The port to open: the one that was named, else the one that is detected
/// among the ports that are there.
pub fn choose_port(named: Option<String>, ports: &Vec<String>, platform: Platform) -> (r: Option<
    String,
>)
    ensures
        match r {
            Some(port) => Some(port@) == match named {
                Some(name) => Some(name@),
                None => detected(texts(ports@), platform),
            },
            None => named is None && detected(texts(ports@), platform) is None,
        },
{
    match named {
        Some(name) => Some(name),
        None => auto_detect_port(ports, platform),
    }
}

/// The path under which the port `name` is opened on `platform`.
pub fn resolve_port(name: &str, platform: Platform) -> (r: String)
    ensures
        r@ == device_path(name@, platform),
{
    if names_device(name) {
        return name.to_owned();
    }
    match platform {
        Platform::Linux => {
            let mut path: String = String::from_str("/dev/tty");
            path.append(name);
            path
        },
        Platform::MacOs => {
            let mut path: String = String::from_str("/dev/cu.");
            path.append(name);
            path
        },
        Platform::Unix => name.to_owned(),
        Platform::Other => name.to_owned(),
    }
}

} // verus!
