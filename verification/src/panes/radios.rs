//! Network interfaces and USB radios.
//!
//! Throughput comes from `/proc/net/dev`, one file for every interface. Link
//! state and monitor mode come from `/sys`, and USB presence from the devices
//! listed there, or from `lsusb` where they are not.

use vstd::prelude::*;

use super::health::{elapsed, elapsed_since, sum_up};
use crate::config::{ignored, is_ignored};
use crate::format::Rate;
use crate::text::{
    chars_of, comes_before, contains, contains_char, count, dec, find, find_char, first_of,
    found_at, found_where_it_first_stands, has_prefix, is_space, join, joined,
    lemma_dec_is_no_space, lemma_first_of, lemma_found_where_put, lemma_nonempty_push,
    lemma_number_reads_back, lemma_text_order_carries, lemma_text_order_is_strict,
    lemma_trimmed_around, lines, lines_of, lower, lowercase, lowered, no_texts, nonempty, number,
    occurs_in, opt_view, parse_number, parse_u64, push_text, same, skip, space, starts_with,
    string_of, strip_end, stripped_end, take, text_before, texts, trim, trimmed, words, words_of,
};

verus! {

/// The link type of an interface in monitor mode.
pub const ARPHRD_IEEE80211_RADIOTAP: u64 = 803;

/// One row of `/proc/net/dev`.
#[derive(Debug, Default, Clone, Copy, PartialEq, Eq, Structural)]
pub struct IfaceCounters {
    pub rx_bytes: u64,
    pub tx_bytes: u64,
}

pub open spec fn counted(v: Seq<(String, IfaceCounters)>) -> Seq<(Seq<char>, IfaceCounters)> {
    Seq::new(v.len(), |i: int| (v[i].0@, v[i].1))
}

/// A field of a row as a number; what is not one counts as zero.
pub open spec fn as_number(field: Seq<char>) -> int {
    match number(field, 10, u64::MAX as int) {
        Some(n) => n,
        None => 0,
    }
}

/// The interface and the counters in one line of `/proc/net/dev`.
///
/// The name ends at the first colon, whether or not a blank follows it: a large
/// byte count runs straight into it. The two heading lines have a bar in their
/// name. Received bytes are the first field after it, transmitted ones the
/// ninth.
pub open spec fn net_line(line: Seq<char>) -> Option<(Seq<char>, IfaceCounters)> {
    match first_of(line, ':') {
        None => None,
        Some(at) => {
            let name = trimmed(line.take(at));
            let f = words_of(line.skip(at + 1));
            if name.len() == 0 || name.contains('|') || f.len() == 0 {
                None
            } else {
                Some(
                    (
                        name,
                        IfaceCounters {
                            rx_bytes: as_number(f[0]) as u64,
                            tx_bytes: if f.len() > 8 {
                                as_number(f[8]) as u64
                            } else {
                                0
                            },
                        },
                    ),
                )
            }
        },
    }
}

pub open spec fn net_rows(rows: Seq<Seq<char>>) -> Seq<(Seq<char>, IfaceCounters)>
    decreases rows.len(),
{
    if rows.len() == 0 {
        Seq::empty()
    } else {
        let before = net_rows(rows.drop_last());
        match net_line(rows.last()) {
            Some(row) => before.push(row),
            None => before,
        }
    }
}

fn read_net_line(line: &str) -> (r: Option<(String, IfaceCounters)>)
    ensures
        match r {
            Some((name, c)) => net_line(line@) == Some((name@, c)),
            None => net_line(line@) is None,
        },
{
    let _: usize = count(line);
    match find_char(line, ':') {
        None => None,
        Some(at) => {
            let name = trim(take(line, at).as_str());
            if name.as_str().is_empty() || contains_char(name.as_str(), '|') {
                return None;
            }
            let f = words(skip(line, at + 1).as_str());
            if f.len() == 0 {
                return None;
            }
            assert(texts(f@)[0] == f@[0]@);
            let rx_bytes: u64 = match parse_u64(f[0].as_str()) {
                Some(n) => n,
                None => 0,
            };
            let tx_bytes: u64 = if f.len() > 8 {
                assert(texts(f@)[8] == f@[8]@);
                match parse_u64(f[8].as_str()) {
                    Some(n) => n,
                    None => 0,
                }
            } else {
                0
            };
            Some((name, IfaceCounters { rx_bytes, tx_bytes }))
        },
    }
}

/// Parses `/proc/net/dev`.
pub fn parse_net_dev(text: &str) -> (r: Vec<(String, IfaceCounters)>)
    ensures
        counted(r@) == net_rows(lines_of(text@)),
{
    let all = lines(text);
    let ghost rows = lines_of(text@);
    let mut out: Vec<(String, IfaceCounters)> = Vec::new();
    let mut i: usize = 0;
    assert(rows.take(0) == Seq::<Seq<char>>::empty());
    assert(counted(out@) == Seq::<(Seq<char>, IfaceCounters)>::empty());
    while i < all.len()
        invariant
            i <= all@.len(),
            texts(all@) == rows,
            counted(out@) == net_rows(rows.take(i as int)),
        decreases all@.len() - i,
    {
        assert(rows.take(i + 1).drop_last() == rows.take(i as int));
        assert(rows.take(i + 1).last() == all@[i as int]@);
        if let Some((name, c)) = read_net_line(all[i].as_str()) {
            let ghost before = counted(out@);
            let ghost added = (name@, c);
            out.push((name, c));
            assert(counted(out@) == before.push(added));
        }
        i = i + 1;
    }
    assert(rows.take(i as int) == rows);
    out
}

/// The channel in the output of `iw dev <if> info`: the number that follows the
/// word on the first line that begins with it.
pub open spec fn channel_rows(rows: Seq<Seq<char>>) -> Option<int>
    decreases rows.len(),
{
    if rows.len() == 0 {
        None
    } else if has_prefix(trimmed(rows[0]), "channel "@) {
        let f = words_of(trimmed(rows[0]).skip(8));
        if f.len() > 0 {
            number(f[0], 10, u32::MAX as int)
        } else {
            None
        }
    } else {
        channel_rows(rows.drop_first())
    }
}

pub fn parse_iw_channel(text: &str) -> (r: Option<u32>)
    ensures
        match r {
            Some(n) => channel_rows(lines_of(text@)) == Some(n as int),
            None => channel_rows(lines_of(text@)) is None,
        },
{
    proof {
        reveal_strlit("channel ");
    }
    let all = lines(text);
    let ghost rows = lines_of(text@);
    let mut i: usize = 0;
    assert(rows.skip(0) == rows);
    while i < all.len()
        invariant
            i <= all@.len(),
            texts(all@) == rows,
            rows == lines_of(text@),
            "channel "@.len() == 8,
            channel_rows(rows) == channel_rows(rows.skip(i as int)),
        decreases all@.len() - i,
    {
        assert(rows.skip(i as int)[0] == all@[i as int]@);
        assert(rows.skip(i as int).drop_first() == rows.skip(i + 1));
        let line = trim(all[i].as_str());
        if starts_with(line.as_str(), "channel ") {
            let f = words(skip(line.as_str(), 8).as_str());
            if f.len() == 0 {
                return None;
            }
            assert(texts(f@)[0] == f@[0]@);
            return match parse_number(f[0].as_str(), 10, u32::MAX as u64) {
                Some(n) => Some(n as u32),
                None => None,
            };
        }
        i = i + 1;
    }
    None
}

#[derive(Debug, Clone, Copy, PartialEq, Eq, Structural)]
pub enum WirelessMode {
    Monitor,
    Managed,
}

/// An interface as the pane displays it.
#[derive(Debug)]
pub struct Iface {
    pub name: String,
    /// `up`, `down`, `unknown` and so on.
    pub state: String,
    pub rx: Rate,
    pub tx: Rate,
    /// Bytes received and sent in all. On a quiet interface only these tell one
    /// that is idle from one that has never worked.
    pub rx_total: u64,
    pub tx_total: u64,
    /// `None` for a wired interface.
    pub mode: Option<WirelessMode>,
    pub channel: Option<u32>,
    /// Kernel module behind the interface.
    pub driver: Option<String>,
}

/// What an interface's row says.
pub struct IfaceRow {
    pub name: Seq<char>,
    pub state: Seq<char>,
    pub rx: Rate,
    pub tx: Rate,
    pub rx_total: u64,
    pub tx_total: u64,
    pub mode: Option<WirelessMode>,
    pub channel: Option<u32>,
    pub driver: Option<Seq<char>>,
}

impl View for Iface {
    type V = IfaceRow;

    open spec fn view(&self) -> IfaceRow {
        IfaceRow {
            name: self.name@,
            state: self.state@,
            rx: self.rx,
            tx: self.tx,
            rx_total: self.rx_total,
            tx_total: self.tx_total,
            mode: self.mode,
            channel: self.channel,
            driver: opt_view(self.driver),
        }
    }
}

pub open spec fn iface_rows(v: Seq<Iface>) -> Seq<IfaceRow> {
    Seq::new(v.len(), |i: int| v[i]@)
}

/// A USB device.
#[derive(Debug)]
pub struct UsbRadio {
    /// `0bda:2838`.
    pub id: String,
    pub description: String,
}

/// What a USB device says of itself.
pub struct Usb {
    pub id: Seq<char>,
    pub description: Seq<char>,
}

impl View for UsbRadio {
    type V = Usb;

    open spec fn view(&self) -> Usb {
        Usb { id: self.id@, description: self.description@ }
    }
}

pub open spec fn usb_views(v: Seq<UsbRadio>) -> Seq<Usb> {
    Seq::new(v.len(), |i: int| v[i]@)
}

/// What stands before the first colon of an ID.
pub open spec fn vendor_of(id: Seq<char>) -> Seq<char> {
    match first_of(id, ':') {
        Some(at) => id.take(at),
        None => id,
    }
}

/// Whether a vendor is among those listed. Capitals and a trailing colon in the
/// list make no difference.
pub open spec fn vendor_listed(id: Seq<char>, vendors: Seq<Seq<char>>) -> bool {
    exists|i: int|
        0 <= i < vendors.len() && lowered(stripped_end(#[trigger] vendors[i], ':')) == lowered(
            vendor_of(id),
        )
}

/// Whether a device is a radio: by its vendor, or by one of the words that mark
/// one in its description.
pub open spec fn radio(id: Seq<char>, description: Seq<char>, vendors: Seq<Seq<char>>) -> bool {
    let d = lowered(description);
    ||| vendor_listed(id, vendors)
    ||| occurs_in(d, "mediatek"@)
    ||| occurs_in(d, "rtl-sdr"@)
    ||| occurs_in(d, "rtlsdr"@)
    ||| occurs_in(d, "802.11"@)
}

pub fn is_radio(id: &str, description: &str, vendors: &Vec<String>) -> (r: bool)
    ensures
        r == radio(id@, description@, texts(vendors@)),
{
    let vendor = match find_char(id, ':') {
        Some(at) => lowercase(take(id, at).as_str()),
        None => lowercase(id),
    };
    let ghost all = texts(vendors@);
    let mut listed = false;
    let mut i: usize = 0;
    while i < vendors.len()
        invariant
            i <= vendors@.len(),
            all == texts(vendors@),
            vendor@ == lowered(vendor_of(id@)),
            listed == exists|j: int|
                0 <= j < i && lowered(stripped_end(#[trigger] all[j], ':')) == lowered(
                    vendor_of(id@),
                ),
        decreases vendors@.len() - i,
    {
        assert(all[i as int] == vendors@[i as int]@);
        let want = lowercase(strip_end(vendors[i].as_str(), ':').as_str());
        if same(want.as_str(), vendor.as_str()) {
            listed = true;
        }
        i = i + 1;
    }
    assert(listed == vendor_listed(id@, all));
    if listed {
        return true;
    }
    let d = lowercase(description);
    contains(d.as_str(), "mediatek") || contains(d.as_str(), "rtl-sdr") || contains(
        d.as_str(),
        "rtlsdr",
    ) || contains(d.as_str(), "802.11")
}

/// The position of the first white space in `s`, or its length.
pub open spec fn first_space(s: Seq<char>) -> int
    decreases s.len(),
{
    if s.len() == 0 || is_space(s[0]) {
        0
    } else {
        1 + first_space(s.drop_first())
    }
}

proof fn lemma_first_space(s: Seq<char>, at: int)
    requires
        0 <= at <= s.len(),
        forall|i: int| 0 <= i < at ==> !is_space(#[trigger] s[i]),
        at < s.len() ==> is_space(s[at]),
    ensures
        first_space(s) == at,
    decreases s.len(),
{
    if at > 0 {
        assert(!is_space(s[0]));
        let t = s.drop_first();
        assert forall|i: int| 0 <= i < at - 1 implies !is_space(#[trigger] t[i]) by {
            assert(!is_space(s[i + 1]));
        }
        lemma_first_space(t, at - 1);
    }
}

/// The device in a line of `lsusb`. What follows the marker, up to another one,
/// is an ID with a colon in it and, behind the first white space, a
/// description.
pub open spec fn lsusb_line(line: Seq<char>) -> Option<Usb> {
    match found_at(line, " ID "@) {
        None => None,
        Some(at) => {
            let rest = line.skip(at + 4);
            let part = match found_at(rest, " ID "@) {
                Some(to) => rest.take(to),
                None => rest,
            };
            let end = first_space(part);
            let id = trimmed(part.take(end));
            if !id.contains(':') {
                None
            } else {
                Some(
                    Usb {
                        id,
                        description: if end < part.len() {
                            trimmed(part.skip(end + 1))
                        } else {
                            Seq::empty()
                        },
                    },
                )
            }
        },
    }
}

pub fn parse_lsusb_line(line: &str) -> (r: Option<UsbRadio>)
    ensures
        match r {
            Some(d) => lsusb_line(line@) == Some(d@),
            None => lsusb_line(line@) is None,
        },
{
    proof {
        reveal_strlit(" ID ");
    }
    let _: usize = count(line);
    let rest = match find(line, " ID ") {
        None => {
            return None;
        },
        Some(at) => skip(line, at + 4),
    };
    let part = match find(rest.as_str(), " ID ") {
        Some(to) => take(rest.as_str(), to),
        None => rest,
    };
    let v = chars_of(part.as_str());
    let n: usize = v.len();
    let mut end: usize = 0;
    while end < n && !space(v[end])
        invariant
            end <= n == v@.len(),
            forall|i: int| 0 <= i < end ==> !is_space(#[trigger] v@[i]),
        decreases n - end,
    {
        end = end + 1;
    }
    proof {
        lemma_first_space(v@, end as int);
        assert(v@.subrange(0, end as int) == v@.take(end as int));
    }
    let id = trim(string_of(&v, 0, end).as_str());
    if !contains_char(id.as_str(), ':') {
        return None;
    }
    let description = if end < n {
        assert(v@.subrange(end + 1, n as int) == v@.skip(end + 1));
        trim(string_of(&v, end + 1, n).as_str())
    } else {
        String::new()
    };
    let device = UsbRadio { id, description };
    assert(end == n ==> device@.description == Seq::<char>::empty());
    Some(device)
}

pub open spec fn lsusb_rows(rows: Seq<Seq<char>>) -> Seq<Usb>
    decreases rows.len(),
{
    if rows.len() == 0 {
        Seq::empty()
    } else {
        let before = lsusb_rows(rows.drop_last());
        match lsusb_line(rows.last()) {
            Some(d) => before.push(d),
            None => before,
        }
    }
}

/// The devices in the output of `lsusb`, or none if it did not run.
pub fn read_usb_from_lsusb(output: Option<&str>) -> (r: Vec<UsbRadio>)
    ensures
        usb_views(r@) == match output {
            Some(text) => lsusb_rows(lines_of(text@)),
            None => Seq::empty(),
        },
{
    let mut out: Vec<UsbRadio> = Vec::new();
    assert(usb_views(out@) == Seq::<Usb>::empty());
    if let Some(text) = output {
        let all = lines(text);
        let ghost rows = lines_of(text@);
        let mut i: usize = 0;
        assert(rows.take(0) == Seq::<Seq<char>>::empty());
        while i < all.len()
            invariant
                i <= all@.len(),
                texts(all@) == rows,
                usb_views(out@) == lsusb_rows(rows.take(i as int)),
            decreases all@.len() - i,
        {
            assert(rows.take(i + 1).drop_last() == rows.take(i as int));
            assert(rows.take(i + 1).last() == all@[i as int]@);
            if let Some(d) = parse_lsusb_line(all[i].as_str()) {
                let ghost before = usb_views(out@);
                let ghost added = d@;
                out.push(d);
                assert(usb_views(out@) == before.push(added));
            }
            i = i + 1;
        }
        assert(rows.take(i as int) == rows);
    }
    out
}

/// Devices go by their ID, then by their description.
pub open spec fn usb_before(a: Usb, b: Usb) -> bool {
    text_before(a.id, b.id) || (a.id == b.id && text_before(a.description, b.description))
}

/// A list of devices with one more, after every one that it does not stand
/// before.
pub open spec fn with_device(list: Seq<Usb>, d: Usb) -> Seq<Usb>
    decreases list.len(),
{
    if list.len() == 0 || !usb_before(d, list.last()) {
        list.push(d)
    } else {
        with_device(list.drop_last(), d).push(list.last())
    }
}

proof fn lemma_with_device(list: Seq<Usb>, d: Usb, at: int)
    requires
        0 <= at <= list.len(),
        at == 0 || !usb_before(d, list[at - 1]),
        forall|i: int| at <= i < list.len() ==> usb_before(d, #[trigger] list[i]),
    ensures
        with_device(list, d) == list.insert(at, d),
    decreases list.len(),
{
    if at == list.len() {
        assert(list.insert(at, d) == list.push(d));
    } else {
        assert(usb_before(d, list[list.len() - 1]));
        lemma_with_device(list.drop_last(), d, at);
        assert(list.insert(at, d) == list.drop_last().insert(at, d).push(list.last()));
    }
}

fn device_before(a: &UsbRadio, b: &UsbRadio) -> (r: bool)
    ensures
        r == usb_before(a@, b@),
{
    let a_id = chars_of(a.id.as_str());
    let b_id = chars_of(b.id.as_str());
    if comes_before(&a_id, &b_id) {
        return true;
    }
    if !same(a.id.as_str(), b.id.as_str()) {
        return false;
    }
    let a_text = chars_of(a.description.as_str());
    let b_text = chars_of(b.description.as_str());
    comes_before(&a_text, &b_text)
}

fn insert_device(list: &mut Vec<UsbRadio>, d: UsbRadio)
    ensures
        usb_views(final(list)@) == with_device(usb_views(old(list)@), d@),
{
    let ghost before = usb_views(list@);
    let mut at: usize = list.len();
    while at > 0 && device_before(&d, &list[at - 1])
        invariant
            at <= list@.len(),
            before == usb_views(list@),
            forall|i: int| at <= i < before.len() ==> usb_before(d@, #[trigger] before[i]),
        decreases at,
    {
        at = at - 1;
    }
    proof {
        lemma_with_device(before, d@, at as int);
    }
    let ghost added = d@;
    list.insert(at, d);
    assert(usb_views(list@) == before.insert(at as int, added));
}

/// What `/sys` says of one USB device.
#[derive(Debug)]
pub struct UsbEntry {
    pub vendor: Option<String>,
    pub product: Option<String>,
    pub manufacturer: Option<String>,
    pub name: Option<String>,
}

pub open spec fn or_empty(s: Option<Seq<char>>) -> Seq<char> {
    match s {
        Some(t) => t,
        None => Seq::empty(),
    }
}

/// The device of an entry. One without a vendor or a product ID is an interface
/// of some device and not one itself.
pub open spec fn usb_in(e: UsbEntry) -> Option<Usb> {
    match (e.vendor, e.product) {
        (Some(vendor), Some(product)) => Some(
            Usb {
                id: vendor@ + ":"@ + product@,
                description: joined(
                    nonempty(
                        Seq::<Seq<char>>::empty().push(or_empty(opt_view(e.manufacturer))).push(
                            or_empty(opt_view(e.name)),
                        ),
                    ),
                    " "@,
                ),
            },
        ),
        _ => None,
    }
}

pub open spec fn usb_entries(v: Seq<UsbEntry>) -> Seq<Usb>
    decreases v.len(),
{
    if v.len() == 0 {
        Seq::empty()
    } else {
        let before = usb_entries(v.drop_last());
        match usb_in(v.last()) {
            Some(d) => with_device(before, d),
            None => before,
        }
    }
}

fn usb_device(e: &UsbEntry) -> (r: Option<UsbRadio>)
    ensures
        match r {
            Some(d) => usb_in(*e) == Some(d@),
            None => usb_in(*e) is None,
        },
{
    match (&e.vendor, &e.product) {
        (Some(vendor), Some(product)) => {
            let mut id = vendor.clone();
            id.append(":");
            id.append(product.as_str());
            let mut parts = no_texts();
            let ghost none = Seq::<Seq<char>>::empty();
            let ghost a = or_empty(opt_view(e.manufacturer));
            let ghost b = or_empty(opt_view(e.name));
            proof {
                reveal(Seq::filter);
                lemma_nonempty_push(none, a);
                lemma_nonempty_push(none.push(a), b);
            }
            if let Some(t) = &e.manufacturer {
                if !t.as_str().is_empty() {
                    push_text(&mut parts, t.clone());
                }
            }
            if let Some(t) = &e.name {
                if !t.as_str().is_empty() {
                    push_text(&mut parts, t.clone());
                }
            }
            assert(texts(parts@) == nonempty(none.push(a).push(b)));
            Some(UsbRadio { id, description: join(&parts, " ") })
        },
        _ => None,
    }
}

/// The USB devices that `/sys` lists, in order.
pub fn read_usb_from_sysfs(entries: &Vec<UsbEntry>) -> (r: Vec<UsbRadio>)
    ensures
        usb_views(r@) == usb_entries(entries@),
{
    let mut out: Vec<UsbRadio> = Vec::new();
    let mut i: usize = 0;
    assert(usb_views(out@) == Seq::<Usb>::empty());
    assert(entries@.take(0) == Seq::<UsbEntry>::empty());
    while i < entries.len()
        invariant
            i <= entries@.len(),
            usb_views(out@) == usb_entries(entries@.take(i as int)),
        decreases entries@.len() - i,
    {
        assert(entries@.take(i + 1).drop_last() == entries@.take(i as int));
        assert(entries@.take(i + 1).last() == entries@[i as int]);
        if let Some(d) = usb_device(&entries[i]) {
            insert_device(&mut out, d);
        }
        i = i + 1;
    }
    assert(entries@.take(i as int) == entries@);
    out
}

/// The throughput between two counts. An adapter that is re-plugged comes back
/// with its counters at zero: that is no throughput, not a huge one.
pub open spec fn rate_between(current: u64, previous: u64, nanos: u64) -> Rate {
    if nanos == 0 || current < previous {
        Rate { bytes: 0, nanos }
    } else {
        Rate { bytes: (current - previous) as u64, nanos }
    }
}

/// Turns a counter delta into a throughput.
pub fn rate(current: u64, previous: u64, nanos: u64) -> (r: Rate)
    ensures
        r == rate_between(current, previous, nanos),
{
    if nanos == 0 {
        Rate { bytes: 0, nanos }
    } else {
        Rate { bytes: current.saturating_sub(previous), nanos }
    }
}

/// What `/sys/class/net` says of one interface.
#[derive(Debug)]
pub struct Link {
    pub name: String,
    pub operstate: Option<String>,
    /// Whether it is a wireless one.
    pub wireless: bool,
    /// The link type.
    pub kind: Option<String>,
    pub driver: Option<String>,
}

/// What `iw dev <if> info` says of one interface.
#[derive(Debug)]
pub struct IwOutput {
    pub name: String,
    pub text: String,
}

/// What one sample of the radios pane read off the box.
#[derive(Debug, Default)]
pub struct RadiosReadings {
    /// `/proc/net/dev`.
    pub net_dev: Option<String>,
    pub links: Vec<Link>,
    /// Only where [`RadiosPane::wants_scan`] asked for them.
    pub iw: Vec<IwOutput>,
    pub usb: Vec<UsbRadio>,
}

/// Throughput readings kept for the trace in the network column.
pub const THROUGHPUT_LEN: usize = 120;

/// State of the radios pane between samples.
pub struct RadiosPane {
    pub prev: Vec<(String, IfaceCounters)>,
    /// When the last sample was taken, in nanoseconds.
    pub last_sample: Option<u64>,
    pub sample_count: u64,
    pub usb_cache: Vec<UsbRadio>,
    pub channels: Vec<(String, u32)>,
    pub ifaces: Vec<Iface>,
    pub usb: Vec<UsbRadio>,
    /// Bytes a second over all interfaces, oldest first.
    pub throughput: Vec<u64>,
}

/// The last entry under a name.
pub open spec fn counters_of(
    list: Seq<(Seq<char>, IfaceCounters)>,
    name: Seq<char>,
) -> Option<IfaceCounters>
    decreases list.len(),
{
    if list.len() == 0 {
        None
    } else if list.last().0 == name {
        Some(list.last().1)
    } else {
        counters_of(list.drop_last(), name)
    }
}

pub open spec fn channel_list(v: Seq<(String, u32)>) -> Seq<(Seq<char>, u32)> {
    Seq::new(v.len(), |i: int| (v[i].0@, v[i].1))
}

pub open spec fn channel_of(list: Seq<(Seq<char>, u32)>, name: Seq<char>) -> Option<u32>
    decreases list.len(),
{
    if list.len() == 0 {
        None
    } else if list.last().0 == name {
        Some(list.last().1)
    } else {
        channel_of(list.drop_last(), name)
    }
}

pub open spec fn link_of(links: Seq<Link>, name: Seq<char>) -> Option<Link>
    decreases links.len(),
{
    if links.len() == 0 {
        None
    } else if links.last().name@ == name {
        Some(links.last())
    } else {
        link_of(links.drop_last(), name)
    }
}

/// The mode of a link: monitor if it is wireless and its type says so.
pub open spec fn mode_of(link: Link) -> Option<WirelessMode> {
    if !link.wireless {
        None
    } else {
        let kind = match link.kind {
            Some(text) => number(trimmed(text@), 10, u64::MAX as int),
            None => None,
        };
        if kind == Some(ARPHRD_IEEE80211_RADIOTAP as int) {
            Some(WirelessMode::Monitor)
        } else {
            Some(WirelessMode::Managed)
        }
    }
}

/// The row for an interface, before its channel is known.
pub open spec fn iface_for(
    name: Seq<char>,
    current: IfaceCounters,
    previous: Option<IfaceCounters>,
    link: Option<Link>,
    nanos: u64,
) -> IfaceRow {
    let (rx, tx) = match previous {
        Some(p) => (
            rate_between(current.rx_bytes, p.rx_bytes, nanos),
            rate_between(current.tx_bytes, p.tx_bytes, nanos),
        ),
        None => (Rate { bytes: 0, nanos: 0 }, Rate { bytes: 0, nanos: 0 }),
    };
    IfaceRow {
        name,
        state: match link {
            Some(l) => match l.operstate {
                Some(t) => trimmed(t@),
                None => "?"@,
            },
            None => "?"@,
        },
        rx,
        tx,
        rx_total: current.rx_bytes,
        tx_total: current.tx_bytes,
        mode: match link {
            Some(l) => mode_of(l),
            None => None,
        },
        channel: None,
        driver: match link {
            Some(l) => opt_view(l.driver),
            None => None,
        },
    }
}

/// The rows for the interfaces that are counted and not ignored.
pub open spec fn listed_ifaces(
    counters: Seq<(Seq<char>, IfaceCounters)>,
    prev: Seq<(Seq<char>, IfaceCounters)>,
    links: Seq<Link>,
    ignore: Seq<Seq<char>>,
    nanos: u64,
) -> Seq<IfaceRow>
    decreases counters.len(),
{
    if counters.len() == 0 {
        Seq::empty()
    } else {
        let before = listed_ifaces(counters.drop_last(), prev, links, ignore, nanos);
        let (name, current) = counters.last();
        if ignored(name, ignore) {
            before
        } else {
            before.push(
                iface_for(name, current, counters_of(prev, name), link_of(links, name), nanos),
            )
        }
    }
}

pub open spec fn iw_of(outputs: Seq<IwOutput>, name: Seq<char>) -> Option<Seq<char>>
    decreases outputs.len(),
{
    if outputs.len() == 0 {
        None
    } else if outputs.last().name@ == name {
        Some(outputs.last().text@)
    } else {
        iw_of(outputs.drop_last(), name)
    }
}

/// The channels that `iw` reports for the wireless interfaces.
pub open spec fn scanned_channels(ifaces: Seq<IfaceRow>, outputs: Seq<IwOutput>) -> Seq<
    (Seq<char>, u32),
>
    decreases ifaces.len(),
{
    if ifaces.len() == 0 {
        Seq::empty()
    } else {
        let before = scanned_channels(ifaces.drop_last(), outputs);
        let iface = ifaces.last();
        match (iface.mode, iw_of(outputs, iface.name)) {
            (Some(_), Some(text)) => match channel_rows(lines_of(text)) {
                Some(n) => before.push((iface.name, n as u32)),
                None => before,
            },
            _ => before,
        }
    }
}

/// The rows with their channels filled in.
pub open spec fn with_channels(ifaces: Seq<IfaceRow>, channels: Seq<(Seq<char>, u32)>) -> Seq<
    IfaceRow,
> {
    Seq::new(
        ifaces.len(),
        |i: int| IfaceRow { channel: channel_of(channels, ifaces[i].name), ..ifaces[i] },
    )
}

/// The devices among some that are radios.
pub open spec fn radios_among(v: Seq<Usb>, vendors: Seq<Seq<char>>) -> Seq<Usb>
    decreases v.len(),
{
    if v.len() == 0 {
        Seq::empty()
    } else {
        let before = radios_among(v.drop_last(), vendors);
        if radio(v.last().id, v.last().description, vendors) {
            before.push(v.last())
        } else {
            before
        }
    }
}

fn find_counters(list: &Vec<(String, IfaceCounters)>, name: &str) -> (r: Option<IfaceCounters>)
    ensures
        r == counters_of(counted(list@), name@),
{
    let ghost all = counted(list@);
    let mut i: usize = list.len();
    assert(all.take(i as int) == all);
    while i > 0
        invariant
            i <= list@.len(),
            all == counted(list@),
            counters_of(all, name@) == counters_of(all.take(i as int), name@),
        decreases i,
    {
        assert(all.take(i as int).last() == (list@[i - 1].0@, list@[i - 1].1));
        assert(all.take(i as int).drop_last() == all.take(i - 1));
        if same(list[i - 1].0.as_str(), name) {
            return Some(list[i - 1].1);
        }
        i = i - 1;
    }
    None
}

fn find_channel(list: &Vec<(String, u32)>, name: &str) -> (r: Option<u32>)
    ensures
        r == channel_of(channel_list(list@), name@),
{
    let ghost all = channel_list(list@);
    let mut i: usize = list.len();
    assert(all.take(i as int) == all);
    while i > 0
        invariant
            i <= list@.len(),
            all == channel_list(list@),
            channel_of(all, name@) == channel_of(all.take(i as int), name@),
        decreases i,
    {
        assert(all.take(i as int).last() == (list@[i - 1].0@, list@[i - 1].1));
        assert(all.take(i as int).drop_last() == all.take(i - 1));
        if same(list[i - 1].0.as_str(), name) {
            return Some(list[i - 1].1);
        }
        i = i - 1;
    }
    None
}

fn find_link<'a>(links: &'a Vec<Link>, name: &str) -> (r: Option<&'a Link>)
    ensures
        match r {
            Some(l) => link_of(links@, name@) == Some(*l),
            None => link_of(links@, name@) is None,
        },
{
    let mut i: usize = links.len();
    assert(links@.take(i as int) == links@);
    while i > 0
        invariant
            i <= links@.len(),
            link_of(links@, name@) == link_of(links@.take(i as int), name@),
        decreases i,
    {
        assert(links@.take(i as int).last() == links@[i - 1]);
        assert(links@.take(i as int).drop_last() == links@.take(i - 1));
        if same(links[i - 1].name.as_str(), name) {
            return Some(&links[i - 1]);
        }
        i = i - 1;
    }
    None
}

fn find_iw<'a>(outputs: &'a Vec<IwOutput>, name: &str) -> (r: Option<&'a str>)
    ensures
        match r {
            Some(t) => iw_of(outputs@, name@) == Some(t@),
            None => iw_of(outputs@, name@) is None,
        },
{
    let mut i: usize = outputs.len();
    assert(outputs@.take(i as int) == outputs@);
    while i > 0
        invariant
            i <= outputs@.len(),
            iw_of(outputs@, name@) == iw_of(outputs@.take(i as int), name@),
        decreases i,
    {
        assert(outputs@.take(i as int).last() == outputs@[i - 1]);
        assert(outputs@.take(i as int).drop_last() == outputs@.take(i - 1));
        if same(outputs[i - 1].name.as_str(), name) {
            return Some(outputs[i - 1].text.as_str());
        }
        i = i - 1;
    }
    None
}

fn link_mode(link: &Link) -> (r: Option<WirelessMode>)
    ensures
        r == mode_of(*link),
{
    if !link.wireless {
        return None;
    }
    let kind: Option<u64> = match &link.kind {
        Some(text) => parse_u64(trim(text.as_str()).as_str()),
        None => None,
    };
    match kind {
        Some(n) => if n == ARPHRD_IEEE80211_RADIOTAP {
            Some(WirelessMode::Monitor)
        } else {
            Some(WirelessMode::Managed)
        },
        None => Some(WirelessMode::Managed),
    }
}

fn build_iface(
    name: &str,
    current: IfaceCounters,
    previous: Option<IfaceCounters>,
    link: Option<&Link>,
    nanos: u64,
) -> (r: Iface)
    ensures
        r@ == iface_for(
            name@,
            current,
            previous,
            match link {
                Some(l) => Some(*l),
                None => None,
            },
            nanos,
        ),
{
    let (rx, tx) = match previous {
        Some(p) => (
            rate(current.rx_bytes, p.rx_bytes, nanos),
            rate(current.tx_bytes, p.tx_bytes, nanos),
        ),
        None => (Rate::none(), Rate::none()),
    };
    let mut state = "?".to_owned();
    let mut mode: Option<WirelessMode> = None;
    let mut driver: Option<String> = None;
    if let Some(l) = link {
        if let Some(t) = &l.operstate {
            state = trim(t.as_str());
        }
        mode = link_mode(l);
        driver = match &l.driver {
            Some(d) => Some(d.clone()),
            None => None,
        };
    }
    Iface {
        name: name.to_owned(),
        state,
        rx,
        tx,
        rx_total: current.rx_bytes,
        tx_total: current.tx_bytes,
        mode,
        channel: None,
        driver,
    }
}

fn build_ifaces(
    counters: &Vec<(String, IfaceCounters)>,
    prev: &Vec<(String, IfaceCounters)>,
    links: &Vec<Link>,
    ignore: &Vec<String>,
    nanos: u64,
) -> (r: Vec<Iface>)
    ensures
        iface_rows(r@) == listed_ifaces(
            counted(counters@),
            counted(prev@),
            links@,
            texts(ignore@),
            nanos,
        ),
{
    let ghost all = counted(counters@);
    let mut out: Vec<Iface> = Vec::new();
    let mut i: usize = 0;
    assert(all.take(0) == Seq::<(Seq<char>, IfaceCounters)>::empty());
    assert(iface_rows(out@) == Seq::<IfaceRow>::empty());
    while i < counters.len()
        invariant
            i <= counters@.len(),
            all == counted(counters@),
            iface_rows(out@) == listed_ifaces(
                all.take(i as int),
                counted(prev@),
                links@,
                texts(ignore@),
                nanos,
            ),
        decreases counters@.len() - i,
    {
        let name = counters[i].0.as_str();
        let current = counters[i].1;
        assert(all.take(i + 1).drop_last() == all.take(i as int));
        assert(all.take(i + 1).last() == (name@, current));
        if !is_ignored(name, ignore) {
            let iface = build_iface(
                name,
                current,
                find_counters(prev, name),
                find_link(links, name),
                nanos,
            );
            let ghost before = iface_rows(out@);
            let ghost added = iface@;
            out.push(iface);
            assert(iface_rows(out@) == before.push(added));
        }
        i = i + 1;
    }
    assert(all.take(i as int) == all);
    out
}

fn scan_channels(ifaces: &Vec<Iface>, outputs: &Vec<IwOutput>) -> (r: Vec<(String, u32)>)
    ensures
        channel_list(r@) == scanned_channels(iface_rows(ifaces@), outputs@),
{
    let ghost all = iface_rows(ifaces@);
    let mut out: Vec<(String, u32)> = Vec::new();
    let mut i: usize = 0;
    assert(all.take(0) == Seq::<IfaceRow>::empty());
    assert(channel_list(out@) == Seq::<(Seq<char>, u32)>::empty());
    while i < ifaces.len()
        invariant
            i <= ifaces@.len(),
            all == iface_rows(ifaces@),
            channel_list(out@) == scanned_channels(all.take(i as int), outputs@),
        decreases ifaces@.len() - i,
    {
        assert(all.take(i + 1).drop_last() == all.take(i as int));
        assert(all.take(i + 1).last() == ifaces@[i as int]@);
        if ifaces[i].mode.is_some() {
            if let Some(text) = find_iw(outputs, ifaces[i].name.as_str()) {
                if let Some(channel) = parse_iw_channel(text) {
                    let ghost before = channel_list(out@);
                    let name = ifaces[i].name.clone();
                    let ghost added = (name@, channel);
                    out.push((name, channel));
                    assert(channel_list(out@) == before.push(added));
                }
            }
        }
        i = i + 1;
    }
    assert(all.take(i as int) == all);
    out
}

fn fill_channels(ifaces: Vec<Iface>, channels: &Vec<(String, u32)>) -> (r: Vec<Iface>)
    ensures
        iface_rows(r@) == with_channels(iface_rows(ifaces@), channel_list(channels@)),
{
    let ghost rows = iface_rows(ifaces@);
    let ghost want = with_channels(rows, channel_list(channels@));
    let n: usize = ifaces.len();
    let mut rest = ifaces;
    let mut out: Vec<Iface> = Vec::new();
    let mut i: usize = 0;
    assert(iface_rows(rest@) == rows.skip(0));
    assert(iface_rows(out@) == want.take(0));
    while i < n
        invariant
            i <= n == rows.len(),
            rest@.len() == n - i,
            want == with_channels(rows, channel_list(channels@)),
            iface_rows(rest@) == rows.skip(i as int),
            iface_rows(out@) == want.take(i as int),
        decreases n - i,
    {
        let ghost left = iface_rows(rest@);
        let mut iface = rest.remove(0);
        assert(iface@ == left[0]);
        assert(iface_rows(rest@) == left.skip(1));
        assert(left.skip(1) == rows.skip(i + 1));
        iface.channel = find_channel(channels, iface.name.as_str());
        let ghost added = iface@;
        let ghost done = iface_rows(out@);
        out.push(iface);
        assert(iface_rows(out@) == done.push(added));
        i = i + 1;
        assert(want.take(i as int) == want.take(i - 1).push(want[i - 1]));
    }
    assert(want.take(i as int) == want);
    out
}

fn pick_radios(v: &Vec<UsbRadio>, vendors: &Vec<String>) -> (r: Vec<UsbRadio>)
    ensures
        usb_views(r@) == radios_among(usb_views(v@), texts(vendors@)),
{
    let ghost all = usb_views(v@);
    let mut out: Vec<UsbRadio> = Vec::new();
    let mut i: usize = 0;
    assert(all.take(0) == Seq::<Usb>::empty());
    assert(usb_views(out@) == Seq::<Usb>::empty());
    while i < v.len()
        invariant
            i <= v@.len(),
            all == usb_views(v@),
            usb_views(out@) == radios_among(all.take(i as int), texts(vendors@)),
        decreases v@.len() - i,
    {
        assert(all.take(i + 1).drop_last() == all.take(i as int));
        assert(all.take(i + 1).last() == v@[i as int]@);
        if is_radio(v[i].id.as_str(), v[i].description.as_str(), vendors) {
            let ghost before = usb_views(out@);
            let d = UsbRadio { id: v[i].id.clone(), description: v[i].description.clone() };
            let ghost added = d@;
            out.push(d);
            assert(usb_views(out@) == before.push(added));
        }
        i = i + 1;
    }
    assert(all.take(i as int) == all);
    out
}

/// The bytes that the interfaces moved, and what that is a second.
pub open spec fn moved(ifaces: Seq<IfaceRow>) -> int
    decreases ifaces.len(),
{
    if ifaces.len() == 0 {
        0
    } else {
        sum_up(
            moved(ifaces.drop_last()),
            sum_up(ifaces.last().rx.bytes as int, ifaces.last().tx.bytes as int),
        )
    }
}

fn total_moved(ifaces: &Vec<Iface>) -> (r: u64)
    ensures
        r == moved(iface_rows(ifaces@)),
{
    let ghost all = iface_rows(ifaces@);
    let mut total: u64 = 0;
    let mut i: usize = 0;
    assert(all.take(0) == Seq::<IfaceRow>::empty());
    while i < ifaces.len()
        invariant
            i <= ifaces@.len(),
            all == iface_rows(ifaces@),
            total == moved(all.take(i as int)),
        decreases ifaces@.len() - i,
    {
        assert(all.take(i + 1).drop_last() == all.take(i as int));
        assert(all.take(i + 1).last() == ifaces@[i as int]@);
        let both: u64 = ifaces[i].rx.bytes.saturating_add(ifaces[i].tx.bytes);
        total = total.saturating_add(both);
        i = i + 1;
    }
    assert(all.take(i as int) == all);
    total
}

/// Bytes a second, rounded down, or the largest number that fits.
pub open spec fn per_second(bytes: int, nanos: int) -> int {
    let n = bytes * 1_000_000_000 / nanos;
    if n > u64::MAX {
        u64::MAX as int
    } else {
        n
    }
}

/// A list of readings with one more, the oldest dropped once it is full.
pub open spec fn window_push(v: Seq<u64>, n: u64, cap: nat) -> Seq<u64> {
    let all = v.push(n);
    if all.len() > cap {
        all.skip(all.len() - cap)
    } else {
        all
    }
}

pub fn push_window(v: &mut Vec<u64>, n: u64, cap: usize)
    requires
        cap > 0,
    ensures
        final(v)@ == window_push(old(v)@, n, cap as nat),
        final(v)@.len() <= cap,
{
    let ghost before = v@;
    let len: usize = v.len();
    if len >= cap {
        let mut kept = v.split_off(len - (cap - 1));
        std::mem::swap(v, &mut kept);
    }
    v.push(n);
    assert(v@ == window_push(before, n, cap as nat));
}

/// The interfaces to look up for a sample: those counted and not ignored.
pub open spec fn listed_names(
    counters: Seq<(Seq<char>, IfaceCounters)>,
    ignore: Seq<Seq<char>>,
) -> Seq<Seq<char>>
    decreases counters.len(),
{
    if counters.len() == 0 {
        Seq::empty()
    } else {
        let before = listed_names(counters.drop_last(), ignore);
        if ignored(counters.last().0, ignore) {
            before
        } else {
            before.push(counters.last().0)
        }
    }
}

/// The interfaces that a sample will list, from the contents of
/// `/proc/net/dev`.
pub fn listed_interfaces(net_dev: Option<&str>, ignore: &Vec<String>) -> (r: Vec<String>)
    ensures
        texts(r@) == match net_dev {
            Some(text) => listed_names(net_rows(lines_of(trimmed(text@))), texts(ignore@)),
            None => Seq::empty(),
        },
{
    let mut out = no_texts();
    if let Some(text) = net_dev {
        let counters = parse_net_dev(trim(text).as_str());
        let ghost all = counted(counters@);
        let mut i: usize = 0;
        assert(all.take(0) == Seq::<(Seq<char>, IfaceCounters)>::empty());
        while i < counters.len()
            invariant
                i <= counters@.len(),
                all == counted(counters@),
                texts(out@) == listed_names(all.take(i as int), texts(ignore@)),
            decreases counters@.len() - i,
        {
            assert(all.take(i + 1).drop_last() == all.take(i as int));
            assert(all.take(i + 1).last() == (counters@[i as int].0@, counters@[i as int].1));
            if !is_ignored(counters[i].0.as_str(), ignore) {
                push_text(&mut out, counters[i].0.clone());
            }
            i = i + 1;
        }
        assert(all.take(i as int) == all);
    }
    out
}

/// Rows a table needs: a heading and its rows, or the one line that says it is
/// empty.
pub open spec fn table_rows(n: nat) -> nat {
    if n == 0 {
        1
    } else {
        n + 1
    }
}

impl RadiosPane {
    /// A pane that has sampled nothing yet.
    pub open spec fn fresh(self) -> bool {
        &&& self.prev@.len() == 0
        &&& self.last_sample is None
        &&& self.sample_count == 0
        &&& self.usb_cache@.len() == 0
        &&& self.channels@.len() == 0
        &&& self.ifaces@.len() == 0
        &&& self.usb@.len() == 0
        &&& self.throughput@.len() == 0
    }

    pub fn new() -> (r: RadiosPane)
        ensures
            r.fresh(),
    {
        RadiosPane {
            prev: Vec::new(),
            last_sample: None,
            sample_count: 0,
            usb_cache: Vec::new(),
            channels: Vec::new(),
            ifaces: Vec::new(),
            usb: Vec::new(),
            throughput: Vec::new(),
        }
    }

    /// Whether the next sample should carry what `iw` and the USB bus say:
    /// every fifth one, because both move slowly and `iw` is a command.
    pub fn wants_scan(&self) -> (r: bool)
        ensures
            r == (self.sample_count % 5 == 0),
    {
        self.sample_count % 5 == 0
    }

    /// Takes in one round of readings, made at `now` nanoseconds.
    pub fn sample(
        &mut self,
        readings: RadiosReadings,
        now: u64,
        vendor_ids: &Vec<String>,
        ignore: &Vec<String>,
    )
        ensures
            ({
                let counters = match readings.net_dev {
                    Some(text) => net_rows(lines_of(trimmed(text@))),
                    None => Seq::empty(),
                };
                let nanos = elapsed(now, old(self).last_sample);
                let bare = listed_ifaces(
                    counters,
                    counted(old(self).prev@),
                    readings.links@,
                    texts(ignore@),
                    nanos,
                );
                let scan = old(self).sample_count % 5 == 0;
                let channels = if scan {
                    scanned_channels(bare, readings.iw@)
                } else {
                    channel_list(old(self).channels@)
                };
                let devices = if scan {
                    usb_views(readings.usb@)
                } else {
                    usb_views(old(self).usb_cache@)
                };
                &&& iface_rows(final(self).ifaces@) == with_channels(bare, channels)
                &&& channel_list(final(self).channels@) == channels
                &&& usb_views(final(self).usb_cache@) == devices
                &&& usb_views(final(self).usb@) == radios_among(devices, texts(vendor_ids@))
                &&& counted(final(self).prev@) == counters
                &&& final(self).throughput@ == if nanos > 0 {
                    window_push(
                        old(self).throughput@,
                        per_second(moved(bare), nanos as int) as u64,
                        THROUGHPUT_LEN as nat,
                    )
                } else {
                    old(self).throughput@
                }
            }),
            old(self).throughput@.len() <= 120 ==> old(self).throughput@.len()
                <= final(self).throughput@.len() <= 120,
            final(self).last_sample == Some(now),
            final(self).sample_count == if old(self).sample_count == u64::MAX {
                0
            } else {
                old(self).sample_count + 1
            },
    {
        let nanos: u64 = elapsed_since(now, self.last_sample);
        self.last_sample = Some(now);
        let counters = match &readings.net_dev {
            Some(text) => parse_net_dev(trim(text.as_str()).as_str()),
            None => {
                let none: Vec<(String, IfaceCounters)> = Vec::new();
                assert(counted(none@) == Seq::<(Seq<char>, IfaceCounters)>::empty());
                none
            },
        };
        let bare = build_ifaces(&counters, &self.prev, &readings.links, ignore, nanos);
        self.prev = counters;
        if nanos > 0 {
            let bytes: u64 = total_moved(&bare);
            let whole: u128 = bytes as u128 * 1_000_000_000 / nanos as u128;
            let rate: u64 = if whole > u64::MAX as u128 {
                u64::MAX
            } else {
                whole as u64
            };
            push_window(&mut self.throughput, rate, THROUGHPUT_LEN);
        }
        if self.sample_count % 5 == 0 {
            self.channels = scan_channels(&bare, &readings.iw);
            self.usb_cache = readings.usb;
        }
        self.ifaces = fill_channels(bare, &self.channels);
        self.usb = pick_radios(&self.usb_cache, vendor_ids);
        self.sample_count = self.sample_count.wrapping_add(1);
    }

    /// How many rows the pane needs, so the layout can pin it: two tables, and
    /// a blank line and a title between them.
    pub open spec fn rows(self) -> nat {
        table_rows(self.ifaces@.len()) + 2 + table_rows(self.usb@.len())
    }

    pub fn content_rows(&self) -> (r: u16)
        ensures
            r == if self.rows() > u16::MAX {
                u16::MAX as nat
            } else {
                self.rows()
            },
    {
        let a: u128 = if self.ifaces.len() == 0 {
            1
        } else {
            self.ifaces.len() as u128 + 1
        };
        let b: u128 = if self.usb.len() == 0 {
            1
        } else {
            self.usb.len() as u128 + 1
        };
        let rows: u128 = a + 2 + b;
        if rows > u16::MAX as u128 {
            u16::MAX
        } else {
            rows as u16
        }
    }
}

/// A counter that went backwards, as it does when an interface is replugged,
/// shows no traffic rather than a wild rate.
pub proof fn counter_reset_shows_no_traffic(current: u64, previous: u64, nanos: u64)
    requires
        current < previous,
    ensures
        rate_between(current, previous, nanos).bytes == 0,
{
}

/// The throughput trace never holds more than it is made for, and what came
/// last stays.
pub proof fn throughput_is_bounded(v: Seq<u64>, n: u64, cap: nat)
    requires
        cap > 0,
    ensures
        window_push(v, n, cap).len() <= cap,
        window_push(v, n, cap).last() == n,
{
}

/// An interface is shown in monitor mode exactly when it is wireless and its
/// link type reads as that of raw radio frames; a wireless one with any other
/// link type, or none that can be read, is managed, and a wired one has no mode.
pub proof fn only_raw_frames_mean_monitor(link: Link)
    ensures
        mode_of(link) == Some(WirelessMode::Monitor) <==> link.wireless && (link.kind matches Some(
            text,
        ) && number(trimmed(text@), 10, u64::MAX as int) == Some(803int)),
        mode_of(link) is None <==> !link.wireless,
        link.wireless ==> mode_of(link) == Some(WirelessMode::Monitor) || mode_of(link) == Some(
            WirelessMode::Managed,
        ),
{
}

/// The link type is read as written, with white space round it: `803` means
/// monitor mode and every other number means that the interface is managed.
pub proof fn link_type_decides_the_mode(
    link: Link,
    lead: Seq<char>,
    kind: u64,
    trail: Seq<char>,
)
    requires
        link.wireless,
        link.kind is Some,
        link.kind->0@ == lead + dec(kind as nat) + trail,
        forall|i: int| 0 <= i < lead.len() ==> is_space(#[trigger] lead[i]),
        forall|i: int| 0 <= i < trail.len() ==> is_space(#[trigger] trail[i]),
    ensures
        kind == 803 ==> mode_of(link) == Some(WirelessMode::Monitor),
        kind != 803 ==> mode_of(link) == Some(WirelessMode::Managed),
{
    lemma_number_reads_back(kind as nat, u64::MAX as int);
    lemma_dec_is_no_space(kind as nat);
    lemma_trimmed_around(lead, dec(kind as nat), trail);
}

/// A row of counters is the name before the colon, the bytes received in the
/// first field and those sent in the ninth; a heading is no interface.
pub proof fn counters_read_back(
    lead: Seq<char>,
    name: Seq<char>,
    rest: Seq<char>,
    c: IfaceCounters,
)
    requires
        forall|i: int| 0 <= i < lead.len() ==> is_space(#[trigger] lead[i]) && lead[i] != ':',
        name.len() > 0,
        !is_space(name[0]),
        !is_space(name.last()),
        !name.contains(':'),
        words_of(rest).len() > 8,
        words_of(rest)[0] == dec(c.rx_bytes as nat),
        words_of(rest)[8] == dec(c.tx_bytes as nat),
    ensures
        !name.contains('|') ==> net_line(lead + name + seq![':'] + rest) == Some((name, c)),
        name.contains('|') ==> net_line(lead + name + seq![':'] + rest) is None,
{
    let line = lead + name + seq![':'] + rest;
    let at = lead.len() as int + name.len();
    assert(line[at] == ':');
    assert forall|i: int| 0 <= i < at implies #[trigger] line[i] != ':' by {
        if i < lead.len() {
            assert(line[i] == lead[i]);
        } else {
            assert(line[i] == name[i - lead.len()]);
            assert(name.contains(name[i - lead.len()]));
        }
    }
    lemma_first_of(line, ':', at);
    lemma_trimmed_around(lead, name, Seq::empty());
    assert(line.take(at) == lead + name + Seq::<char>::empty());
    assert(line.skip(at + 1) == rest);
    lemma_number_reads_back(c.rx_bytes as nat, u64::MAX as int);
    lemma_number_reads_back(c.tx_bytes as nat, u64::MAX as int);
}

/// The rows are taken in their order, each for itself.
pub proof fn counters_are_listed_in_order(rows: Seq<Seq<char>>, line: Seq<char>)
    ensures
        net_rows(rows.push(line)) == match net_line(line) {
            Some(row) => net_rows(rows).push(row),
            None => net_rows(rows),
        },
        net_rows(Seq::empty()).len() == 0,
{
    assert(rows.push(line).drop_last() == rows);
}

/// The channel is the number of the first line that begins with the word; the
/// lines before it say nothing of it.
pub proof fn channel_is_on_its_own_line(rows: Seq<Seq<char>>, line: Seq<char>, n: u32)
    requires
        has_prefix(trimmed(line), "channel "@),
        words_of(trimmed(line).skip(8)).len() > 0,
        words_of(trimmed(line).skip(8))[0] == dec(n as nat),
        forall|i: int|
            0 <= i < rows.len() ==> !has_prefix(trimmed(#[trigger] rows[i]), "channel "@),
    ensures
        channel_rows(rows) is None,
        channel_rows(rows.push(line)) == Some(n as int),
    decreases rows.len(),
{
    lemma_number_reads_back(n as nat, u32::MAX as int);
    if rows.len() == 0 {
        assert(rows.push(line)[0] == line);
    } else {
        let rest = rows.drop_first();
        assert(forall|i: int| 0 <= i < rest.len() ==> #[trigger] rest[i] == rows[i + 1]);
        channel_is_on_its_own_line(rest, line, n);
        assert(rows.push(line).drop_first() == rest.push(line));
        assert(rows.push(line)[0] == rows[0]);
    }
}

/// A device is a radio where its vendor is one of those listed, in whatever case
/// either is written, and listing more vendors never takes one away.
pub proof fn listed_vendors_are_radios(
    vendor: Seq<char>,
    product: Seq<char>,
    description: Seq<char>,
    vendors: Seq<Seq<char>>,
    more: Seq<Seq<char>>,
)
    requires
        !vendor.contains(':'),
    ensures
        vendors.contains(vendor) || vendors.contains(lowered(vendor)) ==> radio(
            vendor + seq![':'] + product,
            description,
            vendors,
        ),
        radio(vendor + seq![':'] + product, description, vendors) ==> radio(
            vendor + seq![':'] + product,
            description,
            vendors + more,
        ),
        radio(vendor + seq![':'] + product, description, Seq::empty()) <==> occurs_in(
            lowered(description),
            "mediatek"@,
        ) || occurs_in(lowered(description), "rtl-sdr"@) || occurs_in(
            lowered(description),
            "rtlsdr"@,
        ) || occurs_in(lowered(description), "802.11"@),
{
    let id = vendor + seq![':'] + product;
    assert(id[vendor.len() as int] == ':');
    assert forall|i: int| 0 <= i < vendor.len() implies #[trigger] id[i] != ':' by {
        assert(id[i] == vendor[i]);
        assert(vendor.contains(vendor[i]));
    }
    lemma_first_of(id, ':', vendor.len() as int);
    assert(id.take(vendor.len() as int) == vendor);
    assert(vendor_of(id) == vendor);
    if vendors.contains(vendor) {
        let k = choose|k: int| 0 <= k < vendors.len() && vendors[k] == vendor;
        assert(stripped_end(vendors[k], ':') == vendor) by {
            if vendor.len() > 0 {
                assert(vendor.contains(vendor[vendor.len() - 1]));
            }
        }
        assert(vendor_listed(id, vendors));
    }
    if vendors.contains(lowered(vendor)) {
        let k = choose|k: int| 0 <= k < vendors.len() && vendors[k] == lowered(vendor);
        let low = lowered(vendor);
        assert(stripped_end(vendors[k], ':') == low) by {
            if low.len() > 0 {
                assert(low[low.len() - 1] == lower(vendor[vendor.len() - 1]));
                assert(vendor.contains(vendor[vendor.len() - 1]));
            }
        }
        assert(lowered(low) == low);
        assert(vendor_listed(id, vendors));
    }
    if vendor_listed(id, vendors) {
        let k = choose|k: int|
            0 <= k < vendors.len() && lowered(stripped_end(#[trigger] vendors[k], ':')) == lowered(
                vendor_of(id),
            );
        assert((vendors + more)[k] == vendors[k]);
        assert(vendor_listed(id, vendors + more));
    }
    assert(!vendor_listed(id, Seq::empty()));
}

/// Only radios are shown, all of them, in the order they were found.
pub proof fn only_radios_are_shown(v: Seq<Usb>, vendors: Seq<Seq<char>>, d: Usb)
    ensures
        radios_among(v.push(d), vendors) == if radio(d.id, d.description, vendors) {
            radios_among(v, vendors).push(d)
        } else {
            radios_among(v, vendors)
        },
        radios_among(v, vendors).contains(d) <==> v.contains(d) && radio(
            d.id,
            d.description,
            vendors,
        ),
    decreases v.len(),
{
    assert(v.push(d).drop_last() == v);
    if v.len() > 0 {
        let rest = v.drop_last();
        only_radios_are_shown(rest, vendors, d);
        let before = radios_among(rest, vendors);
        let all = radios_among(v, vendors);
        if v.contains(d) && radio(d.id, d.description, vendors) {
            let k = choose|k: int| 0 <= k < v.len() && v[k] == d;
            if k < rest.len() {
                assert(rest[k] == d);
                assert(before.contains(d));
                let m = choose|m: int| 0 <= m < before.len() && before[m] == d;
                assert(all[m] == d);
            } else {
                assert(all[before.len() as int] == d);
            }
        }
        if all.contains(d) {
            let k = choose|k: int| 0 <= k < all.len() && all[k] == d;
            if k < before.len() {
                assert(before[k] == d);
                assert(before.contains(d));
                let m = choose|m: int| 0 <= m < rest.len() && rest[m] == d;
                assert(v[m] == d);
            } else {
                assert(v[v.len() - 1] == d);
            }
        }
    }
}

/// A device is known by its vendor and its product, in that order, and one that
/// does not give both is none.
pub proof fn device_needs_both_numbers(e: UsbEntry)
    ensures
        usb_in(e) is Some <==> e.vendor is Some && e.product is Some,
        usb_in(e) matches Some(d) ==> d.id == e.vendor->0@ + ":"@ + e.product->0@,
        usb_in(e) matches Some(d) ==> (e.name is None || e.name->0@.len() == 0) ==> (
        e.manufacturer matches Some(m) ==> d.description == m@),
        usb_in(e) matches Some(d) ==> (e.manufacturer is None || e.manufacturer->0@.len() == 0)
            ==> (e.name matches Some(n) ==> d.description == n@),
        usb_in(e) matches Some(d) ==> (e.manufacturer matches Some(m) ==> (e.name matches Some(
            n,
        ) ==> m@.len() > 0 && n@.len() > 0 ==> d.description == m@ + " "@ + n@)),
{
    if usb_in(e) is Some {
        let none = Seq::<Seq<char>>::empty();
        let m = or_empty(opt_view(e.manufacturer));
        let n = or_empty(opt_view(e.name));
        lemma_nonempty_push(none, m);
        lemma_nonempty_push(none.push(m), n);
        assert(nonempty(none) == none) by {
            reveal(Seq::filter);
        }
        let list = nonempty(none.push(m).push(n));
        if m.len() > 0 && n.len() > 0 {
            assert(list == none.push(m).push(n));
            assert(list.drop_last() == none.push(m));
            assert(joined(list.drop_last(), " "@) == m);
        } else if m.len() > 0 {
            assert(list == none.push(m));
        } else if n.len() > 0 {
            assert(list == none.push(n));
        } else {
            assert(list == none);
            assert(m == n);
        }
    }
}

/// A rate is what the counter grew by over the time it took.
pub proof fn rate_is_growth_over_time(current: u64, previous: u64, nanos: u64)
    ensures
        nanos > 0 && current >= previous ==> rate_between(current, previous, nanos).bytes == current
            - previous,
        rate_between(current, previous, nanos).nanos == nanos,
        nanos == 0 ==> rate_between(current, previous, nanos).bytes == 0,
{
}

/// What is received and what is sent keep to their own counters, and an
/// interface that was not there before shows its totals and no rate.
pub proof fn received_and_sent_keep_apart(
    name: Seq<char>,
    current: IfaceCounters,
    p: IfaceCounters,
    link: Option<Link>,
    nanos: u64,
)
    ensures
        iface_for(name, current, Some(p), link, nanos).rx == rate_between(
            current.rx_bytes,
            p.rx_bytes,
            nanos,
        ),
        iface_for(name, current, Some(p), link, nanos).tx == rate_between(
            current.tx_bytes,
            p.tx_bytes,
            nanos,
        ),
        iface_for(name, current, None, link, nanos).rx.bytes == 0,
        iface_for(name, current, None, link, nanos).tx.bytes == 0,
        iface_for(name, current, None, link, nanos).rx_total == current.rx_bytes,
        iface_for(name, current, None, link, nanos).tx_total == current.tx_bytes,
        iface_for(name, current, Some(p), link, nanos).rx_total == current.rx_bytes,
        iface_for(name, current, Some(p), link, nanos).tx_total == current.tx_bytes,
        iface_for(name, current, Some(p), link, nanos).name == name,
        link is None ==> iface_for(name, current, Some(p), link, nanos).state == "?"@ && iface_for(
            name,
            current,
            Some(p),
            link,
            nanos,
        ).mode is None,
        link matches Some(l) ==> iface_for(name, current, Some(p), link, nanos).mode == mode_of(l)
            && iface_for(name, current, Some(p), link, nanos).driver == opt_view(l.driver),
        link matches Some(l) ==> (l.operstate matches Some(t) ==> iface_for(
            name,
            current,
            Some(p),
            link,
            nanos,
        ).state == trimmed(t@)),
{
}

/// Every interface that is not to be hidden is listed, once for each row of
/// counters, and none that is to be hidden is.
pub proof fn hidden_interfaces_stay_hidden(
    counters: Seq<(Seq<char>, IfaceCounters)>,
    prev: Seq<(Seq<char>, IfaceCounters)>,
    links: Seq<Link>,
    ignore: Seq<Seq<char>>,
    nanos: u64,
    name: Seq<char>,
)
    ensures
        (exists|i: int|
            0 <= i < listed_ifaces(counters, prev, links, ignore, nanos).len() && (
            #[trigger] listed_ifaces(counters, prev, links, ignore, nanos)[i]).name == name) <==> (
        exists|k: int| 0 <= k < counters.len() && (#[trigger] counters[k]).0 == name)
            && !ignored(name, ignore),
        listed_names(counters, ignore).contains(name) <==> (exists|k: int|
            0 <= k < counters.len() && (#[trigger] counters[k]).0 == name) && !ignored(
            name,
            ignore,
        ),
        listed_ifaces(counters, prev, links, ignore, nanos).len() == listed_names(
            counters,
            ignore,
        ).len(),
    decreases counters.len(),
{
    if counters.len() > 0 {
        let rest = counters.drop_last();
        hidden_interfaces_stay_hidden(rest, prev, links, ignore, nanos, name);
        let before = listed_ifaces(rest, prev, links, ignore, nanos);
        let all = listed_ifaces(counters, prev, links, ignore, nanos);
        let names_before = listed_names(rest, ignore);
        let names = listed_names(counters, ignore);
        assert(forall|k: int| 0 <= k < rest.len() ==> #[trigger] rest[k] == counters[k]);
        assert(forall|i: int| 0 <= i < before.len() ==> #[trigger] before[i] == all[i]);
        assert(forall|i: int| 0 <= i < names_before.len() ==> #[trigger] names_before[i]
            == names[i]);
        assert(counters[counters.len() - 1] == counters.last());
        if exists|k: int| 0 <= k < rest.len() && (#[trigger] rest[k]).0 == name {
            let k = choose|k: int| 0 <= k < rest.len() && (#[trigger] rest[k]).0 == name;
            assert(counters[k].0 == name);
            if !ignored(name, ignore) {
                let i = choose|i: int| 0 <= i < before.len() && (#[trigger] before[i]).name == name;
                assert(all[i].name == name);
                let j = choose|j: int| 0 <= j < names_before.len() && names_before[j] == name;
                assert(names[j] == name);
            }
        }
        if !ignored(counters.last().0, ignore) {
            assert(all[before.len() as int].name == counters.last().0);
            assert(names[names_before.len() as int] == counters.last().0);
        }
        if exists|i: int| 0 <= i < all.len() && (#[trigger] all[i]).name == name {
            let i = choose|i: int| 0 <= i < all.len() && (#[trigger] all[i]).name == name;
            if i < before.len() {
                assert(before[i].name == name);
            }
        }
        if names.contains(name) {
            let j = choose|j: int| 0 <= j < names.len() && names[j] == name;
            if j < names_before.len() {
                assert(names_before[j] == name);
                assert(names_before.contains(name));
            }
        }
        if exists|k: int| 0 <= k < counters.len() && (#[trigger] counters[k]).0 == name {
            let k = choose|k: int| 0 <= k < counters.len() && (#[trigger] counters[k]).0 == name;
            if k < rest.len() {
                assert(rest[k].0 == name);
            }
        }
    }
}

/// What an interface counted last is found by its name.
pub proof fn counters_go_by_their_name(list: Seq<(Seq<char>, IfaceCounters)>, name: Seq<char>)
    ensures
        counters_of(list, name) is None <==> forall|i: int|
            0 <= i < list.len() ==> (#[trigger] list[i]).0 != name,
        counters_of(list, name) matches Some(c) ==> exists|k: int|
            0 <= k < list.len() && #[trigger] list[k] == (name, c) && forall|j: int|
                k < j < list.len() ==> (#[trigger] list[j]).0 != name,
    decreases list.len(),
{
    if list.len() > 0 {
        let rest = list.drop_last();
        assert(forall|i: int| 0 <= i < rest.len() ==> #[trigger] rest[i] == list[i]);
        if list.last().0 == name {
            assert(list[list.len() - 1] == (name, list.last().1));
        } else {
            counters_go_by_their_name(rest, name);
            if let Some(c) = counters_of(rest, name) {
                let k = choose|k: int|
                    0 <= k < rest.len() && #[trigger] rest[k] == (name, c) && forall|j: int|
                        k < j < rest.len() ==> (#[trigger] rest[j]).0 != name;
                assert(list[k] == (name, c));
                assert forall|j: int| k < j < list.len() implies (#[trigger] list[j]).0 != name by {
                    if j < rest.len() {
                        assert(rest[j].0 != name);
                    }
                }
            } else {
                assert forall|i: int| 0 <= i < list.len() implies (#[trigger] list[i]).0
                    != name by {
                    if i < rest.len() {
                        assert(rest[i].0 != name);
                    }
                }
            }
        }
    }
}

/// The channel of an interface is the one that bears its name, and nothing else
/// of its row changes.
pub proof fn channels_go_by_their_name(
    ifaces: Seq<IfaceRow>,
    channels: Seq<(Seq<char>, u32)>,
    i: int,
)
    requires
        0 <= i < ifaces.len(),
    ensures
        with_channels(ifaces, channels).len() == ifaces.len(),
        with_channels(ifaces, channels)[i] == (IfaceRow {
            channel: with_channels(ifaces, channels)[i].channel,
            ..ifaces[i]
        }),
        with_channels(ifaces, channels)[i].channel is None <==> forall|k: int|
            0 <= k < channels.len() ==> (#[trigger] channels[k]).0 != ifaces[i].name,
        with_channels(ifaces, channels)[i].channel matches Some(c) ==> channels.contains(
            (ifaces[i].name, c),
        ),
{
    lemma_channel_of(channels, ifaces[i].name);
}

proof fn lemma_channel_of(list: Seq<(Seq<char>, u32)>, name: Seq<char>)
    ensures
        channel_of(list, name) is None <==> forall|k: int|
            0 <= k < list.len() ==> (#[trigger] list[k]).0 != name,
        channel_of(list, name) matches Some(c) ==> list.contains((name, c)),
    decreases list.len(),
{
    if list.len() > 0 {
        let rest = list.drop_last();
        assert(forall|i: int| 0 <= i < rest.len() ==> #[trigger] rest[i] == list[i]);
        if list.last().0 == name {
            assert(list[list.len() - 1] == (name, list.last().1));
        } else {
            lemma_channel_of(rest, name);
            if let Some(c) = channel_of(rest, name) {
                let k = choose|k: int| 0 <= k < rest.len() && rest[k] == (name, c);
                assert(list[k] == (name, c));
            } else {
                assert forall|i: int| 0 <= i < list.len() implies (#[trigger] list[i]).0
                    != name by {
                    if i < rest.len() {
                        assert(rest[i].0 != name);
                    }
                }
            }
        }
    }
}

/// Only wireless interfaces are scanned, and the channel found is that of the
/// interface it was found on.
pub proof fn only_wireless_interfaces_are_scanned(
    ifaces: Seq<IfaceRow>,
    outputs: Seq<IwOutput>,
    iface: IfaceRow,
)
    ensures
        iface.mode is None ==> scanned_channels(ifaces.push(iface), outputs) == scanned_channels(
            ifaces,
            outputs,
        ),
        iface.mode is Some ==> (iw_of(outputs, iface.name) matches Some(text) ==> (channel_rows(
            lines_of(text),
        ) matches Some(n) ==> scanned_channels(ifaces.push(iface), outputs) == scanned_channels(
            ifaces,
            outputs,
        ).push((iface.name, n as u32)))),
        iface.mode is Some && iw_of(outputs, iface.name) is None ==> scanned_channels(
            ifaces.push(iface),
            outputs,
        ) == scanned_channels(ifaces, outputs),
{
    assert(ifaces.push(iface).drop_last() == ifaces);
}

/// The traffic of all interfaces is what each received and sent, added up.
pub proof fn traffic_is_added_up(ifaces: Seq<IfaceRow>, iface: IfaceRow)
    requires
        moved(ifaces) + iface.rx.bytes + iface.tx.bytes <= u64::MAX,
    ensures
        moved(ifaces.push(iface)) == moved(ifaces) + iface.rx.bytes + iface.tx.bytes,
        moved(Seq::empty()) == 0,
{
    assert(ifaces.push(iface).drop_last() == ifaces);
    lemma_moved_is_not_negative(ifaces);
}

proof fn lemma_moved_is_not_negative(ifaces: Seq<IfaceRow>)
    ensures
        moved(ifaces) >= 0,
    decreases ifaces.len(),
{
    if ifaces.len() > 0 {
        lemma_moved_is_not_negative(ifaces.drop_last());
    }
}

/// Bytes a second are bytes over seconds, rounded down.
pub proof fn throughput_is_bytes_a_second(bytes: u64, nanos: u64)
    requires
        nanos > 0,
    ensures
        per_second(bytes as int, nanos as int) < u64::MAX ==> per_second(
            bytes as int,
            nanos as int,
        ) * nanos <= bytes * 1_000_000_000 < (per_second(bytes as int, nanos as int) + 1) * nanos,
        nanos == 1_000_000_000 ==> per_second(bytes as int, nanos as int) == bytes,
{
    let a = bytes as int * 1_000_000_000;
    let n = nanos as int;
    let q = a / n;
    assert(q * n <= a && a < (q + 1) * n) by (nonlinear_arith)
        requires
            n > 0,
            q == a / n,
    ;
    if nanos == 1_000_000_000 {
        assert(a / 1_000_000_000 == bytes);
    }
}

/// The window holds the newest figures in their order and loses the oldest once
/// it is full.
pub proof fn window_keeps_the_newest(v: Seq<u64>, n: u64, cap: nat)
    requires
        cap > 0,
        v.len() <= cap,
    ensures
        v.len() < cap ==> window_push(v, n, cap) == v.push(n),
        v.len() == cap ==> window_push(v, n, cap) == v.drop_first().push(n),
{
    if v.len() == cap {
        assert(v.push(n).skip(1) == v.drop_first().push(n));
    }
}

/// The devices found are in order of their numbers, and a device is there
/// exactly when its entry is.
pub proof fn devices_are_in_order(v: Seq<UsbEntry>)
    ensures
        forall|i: int, j: int|
            0 <= i < j < usb_entries(v).len() ==> !usb_before(
                #[trigger] usb_entries(v)[j],
                #[trigger] usb_entries(v)[i],
            ),
        forall|d: Usb| #[trigger]
            usb_entries(v).contains(d) <==> exists|k: int|
                0 <= k < v.len() && usb_in(#[trigger] v[k]) == Some(d),
    decreases v.len(),
{
    if v.len() > 0 {
        let rest = v.drop_last();
        devices_are_in_order(rest);
        assert(forall|k: int| 0 <= k < rest.len() ==> #[trigger] rest[k] == v[k]);
        assert(v[v.len() - 1] == v.last());
        let before = usb_entries(rest);
        if let Some(d) = usb_in(v.last()) {
            lemma_with_device_in_order(before, d);
        }
        assert forall|d: Usb| #[trigger]
            usb_entries(v).contains(d) <==> exists|k: int|
                0 <= k < v.len() && usb_in(#[trigger] v[k]) == Some(d) by {
            if before.contains(d) {
                let k = choose|k: int| 0 <= k < rest.len() && usb_in(#[trigger] rest[k]) == Some(d);
                assert(usb_in(v[k]) == Some(d));
            }
            if exists|k: int| 0 <= k < v.len() && usb_in(#[trigger] v[k]) == Some(d) {
                let k = choose|k: int| 0 <= k < v.len() && usb_in(#[trigger] v[k]) == Some(d);
                if k < rest.len() {
                    assert(usb_in(rest[k]) == Some(d));
                }
            }
        }
    }
}

proof fn lemma_usb_order(a: Usb, b: Usb, c: Usb)
    ensures
        usb_before(a, b) ==> !usb_before(b, a),
        !usb_before(a, b) && !usb_before(b, c) ==> !usb_before(a, c),
{
    lemma_text_order_is_strict(a.id, b.id);
    lemma_text_order_is_strict(b.id, c.id);
    lemma_text_order_is_strict(a.id, c.id);
    lemma_text_order_is_strict(a.description, b.description);
    lemma_text_order_is_strict(b.description, c.description);
    lemma_text_order_is_strict(a.description, c.description);
    if !usb_before(a, b) && !usb_before(b, c) && usb_before(a, c) {
        if text_before(b.id, a.id) && text_before(a.id, c.id) {
            lemma_text_order_carries(b.id, a.id, c.id);
        }
        if text_before(c.id, b.id) && text_before(a.id, c.id) {
            lemma_text_order_carries(a.id, c.id, b.id);
        }
        if a.id == b.id && b.id == c.id {
            if text_before(b.description, a.description) {
                lemma_text_order_carries(b.description, a.description, c.description);
            }
        }
    }
}

proof fn lemma_with_device_in_order(list: Seq<Usb>, d: Usb)
    requires
        forall|i: int, j: int|
            0 <= i < j < list.len() ==> !usb_before(#[trigger] list[j], #[trigger] list[i]),
    ensures
        forall|i: int, j: int|
            0 <= i < j < with_device(list, d).len() ==> !usb_before(
                #[trigger] with_device(list, d)[j],
                #[trigger] with_device(list, d)[i],
            ),
        forall|e: Usb| #[trigger]
            with_device(list, d).contains(e) <==> list.contains(e) || e == d,
    decreases list.len(),
{
    let r = with_device(list, d);
    if list.len() == 0 || !usb_before(d, list.last()) {
        assert forall|i: int, j: int| 0 <= i < j < r.len() implies !usb_before(
            #[trigger] r[j],
            #[trigger] r[i],
        ) by {
            if j < list.len() {
                assert(!usb_before(list[j], list[i]));
            } else if i < list.len() - 1 {
                assert(!usb_before(list[list.len() - 1], list[i]));
                lemma_usb_order(d, list.last(), list[i]);
            }
        }
        assert forall|e: Usb| #[trigger] r.contains(e) <==> list.contains(e) || e == d by {
            if r.contains(e) {
                let k = choose|k: int| 0 <= k < r.len() && r[k] == e;
                if k < list.len() {
                    assert(list[k] == e);
                }
            }
            if list.contains(e) {
                let k = choose|k: int| 0 <= k < list.len() && list[k] == e;
                assert(r[k] == e);
            }
            if e == d {
                assert(r[list.len() as int] == e);
            }
        }
    } else {
        let rest = list.drop_last();
        let front = with_device(rest, d);
        assert forall|i: int, j: int| 0 <= i < j < rest.len() implies !usb_before(
            #[trigger] rest[j],
            #[trigger] rest[i],
        ) by {
            assert(!usb_before(list[j], list[i]));
        }
        lemma_with_device_in_order(rest, d);
        assert forall|i: int, j: int| 0 <= i < j < r.len() implies !usb_before(
            #[trigger] r[j],
            #[trigger] r[i],
        ) by {
            if j < front.len() {
                assert(!usb_before(front[j], front[i]));
            } else {
                assert(front.contains(front[i]));
                if front[i] != d {
                    let k = choose|k: int| 0 <= k < rest.len() && rest[k] == front[i];
                    assert(!usb_before(list[list.len() - 1], list[k]));
                } else {
                    lemma_usb_order(d, list.last(), d);
                }
            }
        }
        assert forall|e: Usb| #[trigger] r.contains(e) <==> list.contains(e) || e == d by {
            if r.contains(e) {
                let k = choose|k: int| 0 <= k < r.len() && r[k] == e;
                if k < front.len() {
                    assert(front.contains(e));
                    if rest.contains(e) {
                        let m = choose|m: int| 0 <= m < rest.len() && rest[m] == e;
                        assert(list[m] == e);
                    }
                } else {
                    assert(list[list.len() - 1] == e);
                }
            }
            if list.contains(e) || e == d {
                if e == list.last() {
                    assert(r[r.len() - 1] == e);
                } else {
                    if list.contains(e) {
                        let m = choose|m: int| 0 <= m < list.len() && list[m] == e;
                        assert(rest[m] == e);
                    }
                    assert(front.contains(e));
                    let k = choose|k: int| 0 <= k < front.len() && front[k] == e;
                    assert(r[k] == e);
                }
            }
        }
    }
}

/// A line of `lsusb` gives the number behind its marker, and what stands behind
/// that is the description.
pub proof fn bus_listing_reads_back(head: Seq<char>, id: Seq<char>, description: Seq<char>)
    requires
        !occurs_in(head + " ID"@, " ID "@),
        !occurs_in(id + seq![' '] + description, " ID "@),
        id.contains(':'),
        forall|i: int| 0 <= i < id.len() ==> !is_space(#[trigger] id[i]),
    ensures
        lsusb_line(head + " ID "@ + id + seq![' '] + description) == Some(
            (Usb { id, description: trimmed(description) }),
        ),
        lsusb_line(head + " ID"@) is None,
{
    reveal_strlit(" ID ");
    reveal_strlit(" ID");
    let mark = " ID "@;
    let rest = id + seq![' '] + description;
    let line = head + mark + id + seq![' '] + description;
    assert(mark.drop_last() == " ID"@);
    assert(mark.len() == 4);
    lemma_found_where_put(head, mark, rest);
    assert(line == head + mark + rest);
    found_where_it_first_stands(rest, mark);
    found_where_it_first_stands(head + " ID"@, mark);
    assert(line.skip(head.len() as int + 4) == rest);
    lemma_listed_device(id, description);
}

proof fn lemma_listed_device(id: Seq<char>, description: Seq<char>)
    requires
        id.contains(':'),
        forall|i: int| 0 <= i < id.len() ==> !is_space(#[trigger] id[i]),
    ensures
        ({
            let rest = id + seq![' '] + description;
            &&& first_space(rest) == id.len()
            &&& trimmed(rest.take(id.len() as int)) == id
            &&& rest.skip(id.len() as int + 1) == description
            &&& id.len() < rest.len()
        }),
{
    let rest = id + seq![' '] + description;
    assert forall|i: int| 0 <= i < id.len() implies !is_space(#[trigger] rest[i]) by {
        assert(rest[i] == id[i]);
    }
    assert(is_space(rest[id.len() as int]));
    lemma_first_space(rest, id.len() as int);
    assert(rest.take(id.len() as int) == id);
    assert(rest.skip(id.len() as int + 1) == description);
    let k = choose|k: int| 0 <= k < id.len() && id[k] == ':';
    assert(!is_space(id[0]) && !is_space(id[id.len() - 1]));
    let none = Seq::<char>::empty();
    lemma_trimmed_around(none, id, none);
    assert(none + id + none == id);
}

/// A link is found by its name and by nothing else, and the last of that name
/// counts.
pub proof fn links_are_found_by_name(links: Seq<Link>, name: Seq<char>)
    ensures
        link_of(links, name) is None <==> forall|i: int|
            0 <= i < links.len() ==> (#[trigger] links[i]).name@ != name,
        link_of(links, name) matches Some(l) ==> l.name@ == name && exists|i: int|
            0 <= i < links.len() && #[trigger] links[i] == l && forall|j: int|
                i < j < links.len() ==> (#[trigger] links[j]).name@ != name,
    decreases links.len(),
{
    if links.len() > 0 {
        let rest = links.drop_last();
        let n = links.len() - 1;
        links_are_found_by_name(rest, name);
        assert(links[n] == links.last());
        assert(forall|i: int| 0 <= i < rest.len() ==> #[trigger] rest[i] == links[i]);
        assert(forall|i: int| 0 <= i < n ==> #[trigger] links[i] == rest[i]);
    }
}

/// What was said of an interface is found by its name and by nothing else, and
/// the last of that name counts.
pub proof fn outputs_are_found_by_name(outputs: Seq<IwOutput>, name: Seq<char>)
    ensures
        iw_of(outputs, name) is None <==> forall|i: int|
            0 <= i < outputs.len() ==> (#[trigger] outputs[i]).name@ != name,
        iw_of(outputs, name) matches Some(t) ==> exists|i: int|
            0 <= i < outputs.len() && (#[trigger] outputs[i]).name@ == name && outputs[i].text@ == t
                && forall|j: int| i < j < outputs.len() ==> (#[trigger] outputs[j]).name@ != name,
    decreases outputs.len(),
{
    if outputs.len() > 0 {
        let rest = outputs.drop_last();
        let n = outputs.len() - 1;
        outputs_are_found_by_name(rest, name);
        assert(outputs[n] == outputs.last());
        assert(forall|i: int| 0 <= i < rest.len() ==> #[trigger] rest[i] == outputs[i]);
        assert(forall|i: int| 0 <= i < n ==> #[trigger] outputs[i] == rest[i]);
    }
}

/// Devices are ordered by their identifiers, and by their descriptions only
/// where those agree; of two that differ one comes first.
pub proof fn device_order_goes_by_identifier(a: Usb, b: Usb)
    ensures
        text_before(a.id, b.id) ==> usb_before(a, b),
        a.id == b.id ==> (usb_before(a, b) <==> text_before(a.description, b.description)),
        usb_before(a, b) ==> !usb_before(b, a),
        a.id != b.id || a.description != b.description ==> usb_before(a, b) || usb_before(b, a),
{
    lemma_text_order_is_strict(a.id, b.id);
    lemma_text_order_is_strict(a.description, b.description);
}

} // verus!
