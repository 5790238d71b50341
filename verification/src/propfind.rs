//! Reading the `href`s of a WebDAV PROPFIND answer, with quick-xml.

use vstd::prelude::*;
use quick_xml::events::Event;
use quick_xml::reader::Reader;
use crate::text::{append, chars_of, string_of};

verus! {

/// An XML event in plain values: an element opened or closed (by local
/// name), text (unescaped, or `None` when it could not be), or anything
/// else.
#[derive(Debug)]
pub enum XmlItem {
    Open(Vec<u8>),
    Close(Vec<u8>),
    Text(Option<String>),
    Skip,
}

pub enum ItemView {
    Open(Seq<u8>),
    Close(Seq<u8>),
    Text(Option<Seq<char>>),
    Skip,
}

pub open spec fn item_view(i: XmlItem) -> ItemView {
    match i {
        XmlItem::Open(n) => ItemView::Open(n@),
        XmlItem::Close(n) => ItemView::Close(n@),
        XmlItem::Text(t) => ItemView::Text(
            match t {
                Some(s) => Some(s@),
                None => None,
            },
        ),
        XmlItem::Skip => ItemView::Skip,
    }
}

/// The progress of a scan: hrefs found, the text of the open href, and
/// whether an href is open.
pub struct ScanState {
    pub hrefs: Seq<Seq<char>>,
    pub current: Seq<char>,
    pub in_href: bool,
}

pub open spec fn href_tag() -> Seq<u8> {
    seq![104u8, 114u8, 101u8, 102u8]
}

pub open spec fn scan_start() -> ScanState {
    ScanState { hrefs: Seq::empty(), current: Seq::empty(), in_href: false }
}

/// One event: `<href>` starts a new text, text inside it is added, and
/// `</href>` records it.
pub open spec fn scan_step(st: ScanState, it: ItemView) -> ScanState {
    match it {
        ItemView::Open(n) => if n == href_tag() {
            ScanState { in_href: true, current: Seq::empty(), ..st }
        } else {
            st
        },
        ItemView::Text(t) => if st.in_href {
            match t {
                Some(x) => ScanState { current: st.current + x, ..st },
                None => st,
            }
        } else {
            st
        },
        ItemView::Close(n) => if n == href_tag() {
            ScanState { in_href: false, hrefs: st.hrefs.push(st.current), ..st }
        } else {
            st
        },
        ItemView::Skip => st,
    }
}

pub open spec fn scan(items: Seq<ItemView>) -> ScanState
    decreases items.len(),
{
    if items.len() == 0 {
        scan_start()
    } else {
        scan_step(scan(items.drop_last()), items.last())
    }
}

/// The exec form of a scan.
pub struct HrefScanner {
    pub hrefs: Vec<String>,
    pub current: Vec<char>,
    pub in_href: bool,
}

impl HrefScanner {
    pub open spec fn state(&self) -> ScanState {
        ScanState {
            hrefs: self.hrefs@.map_values(|h: String| h@),
            current: self.current@,
            in_href: self.in_href,
        }
    }

    pub fn new() -> (s: Self)
        ensures
            s.state() == scan_start(),
    {
        let s = HrefScanner { hrefs: Vec::new(), current: Vec::new(), in_href: false };
        assert(s.state().hrefs =~= Seq::<Seq<char>>::empty());
        s
    }

    /// Takes in one event.
    pub fn step(&mut self, it: &XmlItem)
        ensures
            final(self).state() == scan_step(old(self).state(), item_view(*it)),
    {
        let href = vec![104u8, 114u8, 101u8, 102u8];
        assert(href@ =~= href_tag());
        match it {
            XmlItem::Open(n) => {
                if bytes_equal(n, &href) {
                    self.in_href = true;
                    self.current = Vec::new();
                }
            },
            XmlItem::Text(t) => {
                if self.in_href {
                    if let Some(x) = t {
                        append(&mut self.current, &chars_of(x.as_str()));
                    }
                }
            },
            XmlItem::Close(n) => {
                if bytes_equal(n, &href) {
                    self.in_href = false;
                    let ghost before = self.state().hrefs;
                    self.hrefs.push(string_of(&self.current));
                    assert(self.state().hrefs =~= before.push(self.current@));
                }
            },
            XmlItem::Skip => {},
        }
        assert(self.state() == scan_step(old(self).state(), item_view(*it)));
    }
}

fn bytes_equal(a: &Vec<u8>, b: &Vec<u8>) -> (r: bool)
    ensures
        r == (a@ == b@),
{
    if a.len() != b.len() {
        return false;
    }
    let mut i: usize = 0;
    while i < a.len()
        invariant
            i <= a.len() == b.len(),
            forall|k: int| 0 <= k < i ==> a@[k] == b@[k],
        decreases a.len() - i,
    {
        if a[i] != b[i] {
            return false;
        }
        i = i + 1;
    }
    assert(a@ =~= b@);
    true
}

/// The hrefs that a sequence of XML events holds.
pub fn collect_hrefs(items: &Vec<XmlItem>) -> (r: Vec<String>)
    ensures
        r@.map_values(|h: String| h@) == scan(items@.map_values(|i: XmlItem| item_view(i))).hrefs,
{
    let ghost vs = items@.map_values(|i: XmlItem| item_view(i));
    let mut s = HrefScanner::new();
    let mut i: usize = 0;
    assert(vs.take(0) =~= Seq::<ItemView>::empty());
    while i < items.len()
        invariant
            i <= items@.len() == vs.len(),
            vs == items@.map_values(|i: XmlItem| item_view(i)),
            s.state() == scan(vs.take(i as int)),
        decreases items.len() - i,
    {
        assert(vs.take(i + 1).drop_last() =~= vs.take(i as int));
        assert(vs.take(i + 1).last() == item_view(items@[i as int]));
        s.step(&items[i]);
        i = i + 1;
    }
    assert(vs.take(items.len() as int) =~= vs);
    s.hrefs
}

/// What quick-xml reports for `xml`, read with a `Reader::from_str` set
/// to trim text, event by event with `read_event_into`, up to the end of
/// the document or its first error (neither included), each event in plain
/// values as `read_items` converts it.
pub uninterp spec fn xml_items(xml: Seq<char>) -> Seq<ItemView>;

/// Reads `xml` with quick-xml (`Reader::from_str`, `config_mut().trim_text(true)`,
/// `read_event_into` until `Eof` or the first error) and converts each
/// event: a start or end tag to its `local_name`, text to its `unescape`d
/// form (`None` when unescaping fails), anything else to `Skip`. Claimed:
/// the result is the named event sequence of the text.
#[verifier::external_body]
fn read_items(xml: &str) -> (r: Vec<XmlItem>)
    ensures
        r@.map_values(|i: XmlItem| item_view(i)) == xml_items(xml@),
{
    let mut reader = Reader::from_str(xml);
    reader.config_mut().trim_text(true);
    let (mut buf, mut items) = (Vec::new(), Vec::new());
    loop {
        items.push(match reader.read_event_into(&mut buf) {
            Ok(Event::Start(e)) => XmlItem::Open(e.local_name().as_ref().to_vec()),
            Ok(Event::End(e)) => XmlItem::Close(e.local_name().as_ref().to_vec()),
            Ok(Event::Text(e)) => XmlItem::Text(e.unescape().ok().map(|t| t.into_owned())),
            Ok(Event::Eof) | Err(_) => return items,
            Ok(_) => XmlItem::Skip,
        });
        buf.clear();
    }
}

/// The hrefs of a PROPFIND answer, in document order: the text of each
/// `href` element (whatever its namespace prefix) closed before the end of
/// the document or its first XML error.
pub fn parse_propfind_response(xml: &str) -> (r: Vec<String>)
    ensures
        r@.map_values(|h: String| h@) == scan(xml_items(xml@)).hrefs,
{
    let items = read_items(xml);
    collect_hrefs(&items)
}

} // verus!
