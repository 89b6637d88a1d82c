use vstd::prelude::*;
use vstd::string::StringSliceAdditionalSpecFns;

verus! {

/// A bulb known on the network: `mac` is its stable identity, `ip` its current
/// address, `name` what the user calls it.
#[derive(Clone, Debug, PartialEq, Eq)]
pub struct Bulb {
    pub ip: String,
    pub name: String,
    pub mac: String,
}

/// The value of a bulb, as text.
pub ghost struct BulbView {
    pub ip: Seq<char>,
    pub name: Seq<char>,
    pub mac: Seq<char>,
}

impl View for Bulb {
    type V = BulbView;

    open spec fn view(&self) -> BulbView {
        BulbView { ip: self.ip@, name: self.name@, mac: self.mac@ }
    }
}

/// A reply that is not a device-information answer with a textual
/// `result.mac`: not UTF-8, not JSON, or without the field.
#[derive(Clone, Copy, Debug, PartialEq, Eq)]
pub struct ParseError;

/// The text of `result.mac` in the JSON document held by `raw`; none when `raw`
/// is no JSON document, or has no string there.
pub uninterp spec fn dev_info_mac(raw: Seq<u8>) -> Option<Seq<char>>;

/// Relies on serde_json::from_slice, Value::pointer and Value::as_str to read the
/// string at `/result/mac` of a JSON document; what comes back depends on the
/// bytes alone.
#[verifier::external_body]
fn read_reply_mac(raw: &[u8]) -> (r: Option<String>)
    ensures
        match r {
            Some(m) => dev_info_mac(raw@) == Some(m@),
            None => dev_info_mac(raw@).is_none(),
        },
{
    let doc: serde_json::Value = serde_json::from_slice(raw).ok()?;
    doc.pointer("/result/mac")?.as_str().map(String::from)
}

/// `b` without its leading NUL bytes.
pub open spec fn skip_nul(b: Seq<u8>) -> Seq<u8>
    decreases b.len(),
{
    if b.len() > 0 && b[0] == 0 {
        skip_nul(b.subrange(1, b.len() as int))
    } else {
        b
    }
}

/// `b` without its trailing NUL bytes.
pub open spec fn drop_nul(b: Seq<u8>) -> Seq<u8>
    decreases b.len(),
{
    if b.len() > 0 && b.last() == 0 {
        drop_nul(b.drop_last())
    } else {
        b
    }
}

/// `b` without the NUL bytes that pad it on either side.
pub open spec fn trim_nul(b: Seq<u8>) -> Seq<u8> {
    drop_nul(skip_nul(b))
}

/// The bulb that a device-information reply from `ip` announces: named after
/// its mac until the user renames it.
pub open spec fn dev_info_bulb(ip: Seq<char>, raw: Seq<u8>) -> Option<BulbView> {
    match dev_info_mac(trim_nul(raw)) {
        Some(mac) => Some(BulbView { ip, name: mac, mac }),
        None => None,
    }
}

/// The bytes of `raw` between its NUL padding.
pub fn trim_padding(raw: &[u8]) -> (r: &[u8])
    ensures
        r@ == trim_nul(raw@),
{
    let n = raw.len();
    let mut start: usize = 0;
    assert(raw@.subrange(0, n as int) =~= raw@);
    while start < n && raw[start] == 0
        invariant
            start <= n,
            n == raw@.len(),
            skip_nul(raw@) == skip_nul(raw@.subrange(start as int, n as int)),
        decreases n - start,
    {
        assert(raw@.subrange(start as int, n as int).subrange(1, (n - start) as int)
            =~= raw@.subrange(start + 1, n as int));
        start = start + 1;
    }
    let ghost front = raw@.subrange(start as int, n as int);
    assert(skip_nul(front) == front);
    let mut end: usize = n;
    assert(raw@.subrange(start as int, n as int) =~= front);
    while end > start && raw[end - 1] == 0
        invariant
            start <= end <= n,
            n == raw@.len(),
            front == raw@.subrange(start as int, n as int),
            drop_nul(front) == drop_nul(raw@.subrange(start as int, end as int)),
        decreases end,
    {
        assert(raw@.subrange(start as int, end as int).drop_last()
            =~= raw@.subrange(start as int, end - 1));
        end = end - 1;
    }
    &raw[start..end]
}

/// Reads a device-information reply received from `ip`.
pub fn parse_dev_info(ip: String, raw: &[u8]) -> (r: Result<Bulb, ParseError>)
    ensures
        match r {
            Ok(b) => dev_info_bulb(ip@, raw@) == Some(b@),
            Err(_) => dev_info_bulb(ip@, raw@).is_none(),
        },
{
    let body = trim_padding(raw);
    match read_reply_mac(body) {
        Some(mac) => Ok(Bulb::new(ip, mac.clone(), mac)),
        None => Err(ParseError),
    }
}

impl Bulb {
    pub fn new(ip: String, name: String, mac: String) -> (b: Bulb)
        ensures
            b@ == (BulbView { ip: ip@, name: name@, mac: mac@ }),
    {
        Bulb { ip, name, mac }
    }

    /// Reads a device-information reply, given as text, received from `ip`.
    pub fn parse(ip: String, data: &str) -> (r: Result<Bulb, ParseError>)
        ensures
            match r {
                Ok(b) => dev_info_bulb(ip@, data.spec_bytes()) == Some(b@),
                Err(_) => dev_info_bulb(ip@, data.spec_bytes()).is_none(),
            },
    {
        parse_dev_info(ip, data.as_bytes())
    }
}

} // verus!
