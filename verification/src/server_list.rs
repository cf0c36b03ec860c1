//! The server list that the game client reads: the list the launcher's
//! service hands out as JSON, converted to the client's form, in which each
//! text is UTF-16 (little endian) and each address a 32-bit number.
use vstd::prelude::*;
use crate::text::chars_of;

verus! {

/// One server, as the JSON server list describes it.
#[derive(Hash, PartialEq, Eq, Clone, Debug)]
pub struct ServerInfoJSON {
    pub id: u32,
    pub name: String,
    pub category: String,
    pub title: String,
    pub queue: String,
    pub population: Option<String>,
    pub address: Option<String>,
    pub port: u32,
    pub available: u32,
    pub unavailable_message: String,
    pub host: Option<String>,
}

/// The JSON server list.
#[derive(Hash, PartialEq, Eq, Clone, Debug)]
pub struct ServerListJSON {
    pub sort_criterion: Option<u32>,
    pub servers: Vec<ServerInfoJSON>,
}

/// One server, in the game client's form.
#[derive(Clone, Debug)]
pub struct ServerInfo {
    pub id: u32,
    pub name: Vec<u8>,
    pub category: Vec<u8>,
    pub title: Vec<u8>,
    pub queue: Vec<u8>,
    pub population: Vec<u8>,
    pub address: u32,
    pub port: u32,
    pub available: u32,
    pub unavailable_message: Vec<u8>,
    pub host: Option<Vec<u8>>,
}

/// The server list, in the game client's form.
#[derive(Clone, Debug)]
pub struct ServerList {
    pub servers: Vec<ServerInfo>,
    pub last_server_id: u32,
    pub sort_criterion: u32,
}

/// The abstract value of a [`ServerInfo`].
pub struct ServerInfoView {
    pub id: u32,
    pub name: Seq<u8>,
    pub category: Seq<u8>,
    pub title: Seq<u8>,
    pub queue: Seq<u8>,
    pub population: Seq<u8>,
    pub address: u32,
    pub port: u32,
    pub available: u32,
    pub unavailable_message: Seq<u8>,
    pub host: Option<Seq<u8>>,
}

impl View for ServerInfo {
    type V = ServerInfoView;

    open spec fn view(&self) -> ServerInfoView {
        ServerInfoView {
            id: self.id,
            name: self.name@,
            category: self.category@,
            title: self.title@,
            queue: self.queue@,
            population: self.population@,
            address: self.address,
            port: self.port,
            available: self.available,
            unavailable_message: self.unavailable_message@,
            host: match self.host {
                Some(h) => Some(h@),
                None => None,
            },
        }
    }
}

/// The abstract value of a [`ServerList`].
pub struct ServerListView {
    pub servers: Seq<ServerInfoView>,
    pub last_server_id: u32,
    pub sort_criterion: u32,
}

impl View for ServerList {
    type V = ServerListView;

    open spec fn view(&self) -> ServerListView {
        ServerListView {
            servers: self.servers@.map_values(|s: ServerInfo| s@),
            last_server_id: self.last_server_id,
            sort_criterion: self.sort_criterion,
        }
    }
}

/// The two little-endian bytes of a UTF-16 code unit.
pub open spec fn le_bytes(u: int) -> Seq<u8> {
    seq![(u % 256) as u8, (u / 256) as u8]
}

/// The UTF-16 encoding of one character, little endian: one code unit below
/// U+10000, else a surrogate pair.
pub open spec fn char_utf16_le(c: char) -> Seq<u8> {
    let v = c as int;
    if v < 0x10000 {
        le_bytes(v)
    } else {
        le_bytes(0xD800 + (v - 0x10000) / 0x400) + le_bytes(0xDC00 + (v - 0x10000) % 0x400)
    }
}

/// The UTF-16 encoding of a string, little endian (`str::encode_utf16`,
/// each unit written with `u16::to_le_bytes`).
pub open spec fn spec_utf16_le(s: Seq<char>) -> Seq<u8>
    decreases s.len(),
{
    if s.len() == 0 {
        seq![]
    } else {
        spec_utf16_le(s.drop_last()) + char_utf16_le(s.last())
    }
}

/// UTF-16 encoding goes character by character: the encoding of two joined
/// strings is the two encodings joined (so a decorated name's bytes are the
/// name's bytes followed by those of `(0)`).
pub proof fn lemma_utf16_concat(a: Seq<char>, b: Seq<char>)
    ensures
        spec_utf16_le(a + b) == spec_utf16_le(a) + spec_utf16_le(b),
    decreases b.len(),
{
    if b.len() == 0 {
        assert(a + b == a);
    } else {
        lemma_utf16_concat(a, b.drop_last());
        assert((a + b).drop_last() == a + b.drop_last());
        assert((a + b).last() == b.last());
    }
}

/// The UTF-16 code units written as little-endian byte pairs in `b`.
pub open spec fn le_units(b: Seq<u8>) -> Seq<int> {
    Seq::new(b.len() / 2, |i: int| b[2 * i] as int + 256 * (b[2 * i + 1] as int))
}

/// Decoding UTF-16 code units, as `String::from_utf16` does: a high
/// surrogate followed by a low one is one character, any other surrogate
/// makes the input invalid (`None`), every other unit is a character.
/// (Read from the end; for UTF-16 that pairs the units the same way.)
pub open spec fn spec_decode_utf16(u: Seq<int>) -> Option<Seq<char>>
    decreases u.len(),
{
    if u.len() == 0 {
        Some(Seq::<char>::empty())
    } else {
        let last = u.last();
        if 0xDC00 <= last <= 0xDFFF {
            if u.len() >= 2 && 0xD800 <= u[u.len() - 2] <= 0xDBFF {
                match spec_decode_utf16(u.take(u.len() - 2)) {
                    Some(p) => Some(
                        p.push(
                            ((u[u.len() - 2] - 0xD800) * 0x400 + (last - 0xDC00) + 0x10000) as char,
                        ),
                    ),
                    None => None,
                }
            } else {
                None
            }
        } else if 0xD800 <= last <= 0xDBFF {
            None
        } else {
            match spec_decode_utf16(u.drop_last()) {
                Some(p) => Some(p.push(last as char)),
                None => None,
            }
        }
    }
}

/// A character's code point is at most U+10FFFF and is no surrogate.
proof fn lemma_char_range(c: char)
    ensures
        0 <= c as int <= 0x10FFFF,
        !(0xD800 <= c as int <= 0xDFFF),
{
}

proof fn lemma_le_units_append(a: Seq<u8>, b: Seq<u8>)
    requires
        a.len() % 2 == 0,
        b.len() % 2 == 0,
    ensures
        le_units(a + b) == le_units(a) + le_units(b),
{
    let l = le_units(a + b);
    let r = le_units(a) + le_units(b);
    assert(l.len() == r.len());
    assert forall|i: int| 0 <= i < l.len() implies l[i] == r[i] by {
        if i < a.len() / 2 {
            assert((a + b)[2 * i] == a[2 * i]);
            assert((a + b)[2 * i + 1] == a[2 * i + 1]);
        } else {
            let j = i - a.len() / 2;
            assert(2 * i == a.len() + 2 * j);
            assert((a + b)[2 * i] == b[2 * j]);
            assert((a + b)[2 * i + 1] == b[2 * j + 1]);
        }
    }
    assert(l == r);
}

proof fn lemma_utf16_even(s: Seq<char>)
    ensures
        spec_utf16_le(s).len() % 2 == 0,
    decreases s.len(),
{
    if s.len() > 0 {
        lemma_utf16_even(s.drop_last());
    }
}

/// Decoding the bytes that [`utf16_to_bytes`] writes gives the string back:
/// they are an even number of bytes, and read as little-endian UTF-16 code
/// units they decode to exactly the characters encoded.
pub proof fn lemma_utf16_roundtrip(s: Seq<char>)
    ensures
        spec_utf16_le(s).len() % 2 == 0,
        spec_decode_utf16(le_units(spec_utf16_le(s))) == Some(s),
    decreases s.len(),
{
    lemma_utf16_even(s);
    if s.len() > 0 {
        let p = s.drop_last();
        let c = s.last();
        lemma_utf16_roundtrip(p);
        lemma_char_range(c);
        let v = c as int;
        let pre = spec_utf16_le(p);
        let cb = char_utf16_le(c);
        lemma_le_units_append(pre, cb);
        let u = le_units(pre + cb);
        assert(s == p.push(c));
        if v < 0x10000 {
            assert(le_units(cb) == seq![v]);
            assert(u.drop_last() == le_units(pre));
        } else {
            let w = v - 0x10000;
            let hi = 0xD800 + w / 0x400;
            let lo = 0xDC00 + w % 0x400;
            assert(le_units(cb) == seq![hi, lo]);
            assert(u.take(u.len() - 2) == le_units(pre));
            assert((hi - 0xD800) * 0x400 + (lo - 0xDC00) + 0x10000 == v);
        }
    }
}

/// Appends the two little-endian bytes of a code unit.
fn push_le(out: &mut Vec<u8>, u: u32)
    requires
        u < 0x10000,
    ensures
        final(out)@ == old(out)@ + le_bytes(u as int),
{
    out.push((u % 256) as u8);
    out.push((u / 256) as u8);
}

/// The code point of a character.
fn char_code(c: char) -> (v: u32)
    ensures
        v as int == c as int,
        v <= 0x10FFFF,
{
    c as u32
}

/// The UTF-16 little-endian bytes of a string.
pub fn utf16_to_bytes(s: &String) -> (r: Vec<u8>)
    ensures
        r@ == spec_utf16_le(s@),
{
    let cs = chars_of(s.as_str());
    let n = cs.len();
    let mut out: Vec<u8> = Vec::new();
    for i in 0..n
        invariant
            n == s@.len(),
            cs@ == s@,
            out@ == spec_utf16_le(s@.take(i as int)),
    {
        let v = char_code(cs[i]);
        if v < 0x10000 {
            push_le(&mut out, v);
        } else {
            let w = v - 0x10000;
            push_le(&mut out, 0xD800 + w / 0x400);
            push_le(&mut out, 0xDC00 + w % 0x400);
        }
        assert(s@.take(i + 1).drop_last() == s@.take(i as int));
    }
    assert(s@.take(n as int) == s@);
    out
}

/// The UTF-16 little-endian bytes of an optional string; none for `None`.
pub fn utf16_to_bytes_opt(s: Option<String>) -> (r: Vec<u8>)
    ensures
        r@ == (match s {
            Some(t) => spec_utf16_le(t@),
            None => Seq::<u8>::empty(),
        }),
{
    match s {
        Some(t) => utf16_to_bytes(&t),
        None => Vec::new(),
    }
}

/// An ASCII decimal digit.
pub open spec fn is_ascii_digit(c: char) -> bool {
    '0' <= c && c <= '9'
}

/// The number that a string of decimal digits writes.
pub open spec fn digits_value(g: Seq<char>) -> nat
    decreases g.len(),
{
    if g.len() == 0 {
        0
    } else {
        digits_value(g.drop_last()) * 10 + ((g.last() as int) - ('0' as int)) as nat
    }
}

/// One part of a dotted IPv4 address: one to three decimal digits, no
/// leading zero unless the part is `0`, and a value of at most 255.
pub open spec fn valid_octet(g: Seq<char>) -> bool {
    &&& 1 <= g.len() <= 3
    &&& forall|i: int| 0 <= i < g.len() ==> is_ascii_digit(#[trigger] g[i])
    &&& (g.len() > 1 ==> g[0] != '0')
    &&& digits_value(g) <= 255
}

/// The parts of `s` between dots, in order (one more than there are dots).
pub open spec fn split_dots(s: Seq<char>) -> Seq<Seq<char>>
    decreases s.len(),
{
    if s.len() == 0 {
        seq![Seq::<char>::empty()]
    } else {
        let r = split_dots(s.drop_last());
        if s.last() == '.' {
            r.push(Seq::<char>::empty())
        } else {
            r.update(r.len() - 1, r.last().push(s.last()))
        }
    }
}

/// The four numbers of a dotted IPv4 address, as `Ipv4Addr`'s `FromStr`
/// reads it (dot-decimal, no octal or hexadecimal forms), or `None` when `s`
/// is no such address.
pub open spec fn spec_parse_ipv4(s: Seq<char>) -> Option<Seq<u8>> {
    let g = split_dots(s);
    if g.len() == 4 && valid_octet(g[0]) && valid_octet(g[1]) && valid_octet(g[2])
        && valid_octet(g[3]) {
        Some(
            seq![
                digits_value(g[0]) as u8,
                digits_value(g[1]) as u8,
                digits_value(g[2]) as u8,
                digits_value(g[3]) as u8,
            ],
        )
    } else {
        None
    }
}

/// The address as one number, the first part most significant; 0 for no
/// address or one that does not parse.
pub open spec fn spec_ipv4_to_u32(ip: Option<Seq<char>>) -> u32 {
    match ip {
        None => 0,
        Some(s) => match spec_parse_ipv4(s) {
            Some(o) => (o[0] as int * 0x1000000 + o[1] as int * 0x10000 + o[2] as int * 0x100
                + o[3] as int) as u32,
            None => 0,
        },
    }
}

/// The value of one part of an address, if it is a valid one.
fn octet_value(g: &Vec<char>) -> (r: Option<u8>)
    ensures
        r is Some <==> valid_octet(g@),
        r matches Some(v) ==> v == digits_value(g@),
{
    let n = g.len();
    if n < 1 || n > 3 {
        return None;
    }
    if n > 1 && g[0] == '0' {
        return None;
    }
    let mut v: u32 = 0;
    for i in 0..n
        invariant
            n == g@.len(),
            1 <= n <= 3,
            v == digits_value(g@.take(i as int)),
            i == 0 ==> v == 0,
            i == 1 ==> v < 10,
            i == 2 ==> v < 100,
            i == 3 ==> v < 1000,
            forall|k: int| 0 <= k < i ==> is_ascii_digit(#[trigger] g@[k]),
    {
        let c = g[i];
        if !('0' <= c && c <= '9') {
            return None;
        }
        assert(g@.take(i + 1).drop_last() == g@.take(i as int));
        v = v * 10 + (c as u32 - '0' as u32);
    }
    assert(g@.take(n as int) == g@);
    if v > 255 {
        return None;
    }
    Some(v as u8)
}

/// The parts of a string between dots.
fn split_on_dots(s: &str) -> (r: Vec<Vec<char>>)
    ensures
        r@.map_values(|g: Vec<char>| g@) == split_dots(s@),
{
    let cs = chars_of(s);
    let n = cs.len();
    let mut groups: Vec<Vec<char>> = Vec::new();
    groups.push(Vec::new());
    assert(groups@.map_values(|g: Vec<char>| g@) == split_dots(s@.take(0)));
    for i in 0..n
        invariant
            n == s@.len(),
            cs@ == s@,
            groups@.len() >= 1,
            groups@.map_values(|g: Vec<char>| g@) == split_dots(s@.take(i as int)),
    {
        let c = cs[i];
        let ghost before = groups@.map_values(|g: Vec<char>| g@);
        assert(s@.take(i + 1).drop_last() == s@.take(i as int));
        if c == '.' {
            groups.push(Vec::new());
            assert(groups@.map_values(|g: Vec<char>| g@) == before.push(Seq::<char>::empty()));
        } else {
            let mut last = groups.pop().unwrap();
            assert(last@ == before.last());
            last.push(c);
            groups.push(last);
            assert(groups@.map_values(|g: Vec<char>| g@) == before.update(
                before.len() - 1,
                before.last().push(c),
            ));
        }
    }
    assert(s@.take(n as int) == s@);
    groups
}

/// Reads a dotted IPv4 address into its four numbers.
pub fn parse_ipv4(s: &str) -> (r: Option<Vec<u8>>)
    ensures
        match r {
            Some(o) => spec_parse_ipv4(s@) == Some(o@),
            None => spec_parse_ipv4(s@) is None,
        },
{
    let groups = split_on_dots(s);
    let ghost g = groups@.map_values(|x: Vec<char>| x@);
    if groups.len() != 4 {
        return None;
    }
    assert(groups@[0]@ == g[0] && groups@[1]@ == g[1] && groups@[2]@ == g[2] && groups@[3]@
        == g[3]);
    let a = match octet_value(&groups[0]) {
        Some(v) => v,
        None => return None,
    };
    let b = match octet_value(&groups[1]) {
        Some(v) => v,
        None => return None,
    };
    let c = match octet_value(&groups[2]) {
        Some(v) => v,
        None => return None,
    };
    let d = match octet_value(&groups[3]) {
        Some(v) => v,
        None => return None,
    };
    let mut o: Vec<u8> = Vec::new();
    o.push(a);
    o.push(b);
    o.push(c);
    o.push(d);
    assert(o@ == seq![a, b, c, d]);
    Some(o)
}

/// The address of a server as one number, the first part of the dotted form
/// most significant (`u32::from_be_bytes` of the octets); 0 for no address
/// or one that does not parse.
pub fn ipv4_to_u32(ip: Option<String>) -> (r: u32)
    ensures
        r == spec_ipv4_to_u32(
            match ip {
                Some(s) => Some(s@),
                None => None,
            },
        ),
{
    match ip {
        None => 0,
        Some(s) => match parse_ipv4(s.as_str()) {
            Some(o) => {
                let v = o[0] as u32 * 0x1000000 + o[1] as u32 * 0x10000 + o[2] as u32 * 0x100
                    + o[3] as u32;
                v
            },
            None => 0,
        },
    }
}

/// The population shown for a server that reports none.
pub open spec fn offline_population() -> Seq<char> {
    "<b><font color=\"#FF0000\">Offline</font></b>"@
}

/// A server's name or title as the client shows it: with `(0)` appended.
pub open spec fn decorated(s: Seq<char>) -> Seq<char> {
    s + "(0)"@
}

/// The optional characters of an optional string.
pub open spec fn opt_view(s: Option<String>) -> Option<Seq<char>> {
    match s {
        Some(t) => Some(t@),
        None => None,
    }
}

/// One server in the client's form.
pub open spec fn spec_server_info(j: ServerInfoJSON) -> ServerInfoView {
    ServerInfoView {
        id: j.id,
        name: spec_utf16_le(decorated(j.name@)),
        category: spec_utf16_le(j.category@),
        title: spec_utf16_le(decorated(j.title@)),
        queue: spec_utf16_le(j.queue@),
        population: spec_utf16_le(
            match j.population {
                Some(p) => p@,
                None => offline_population(),
            },
        ),
        address: spec_ipv4_to_u32(opt_view(j.address)),
        port: j.port,
        available: j.available,
        unavailable_message: spec_utf16_le(j.unavailable_message@),
        host: if j.address is Some || j.host is None {
            None
        } else {
            Some(spec_utf16_le(j.host->0@))
        },
    }
}

/// What the conversion keeps of one server: its id, port and availability
/// unchanged; a host only when the server has no address but a host, and
/// then one that decodes back to that host; every text decodes back to the
/// JSON text (names and titles with `(0)` appended, a missing population as
/// the offline notice); and address 0 when there is no address.
pub proof fn lemma_server_info_laws(j: ServerInfoJSON)
    ensures
        spec_server_info(j).id == j.id,
        spec_server_info(j).port == j.port,
        spec_server_info(j).available == j.available,
        spec_server_info(j).host is Some <==> (j.address is None && j.host is Some),
        spec_server_info(j).host matches Some(b) ==> (j.host matches Some(h)
            && spec_decode_utf16(le_units(b)) == Some(h@)),
        spec_decode_utf16(le_units(spec_server_info(j).name)) == Some(j.name@ + "(0)"@),
        spec_decode_utf16(le_units(spec_server_info(j).title)) == Some(j.title@ + "(0)"@),
        spec_decode_utf16(le_units(spec_server_info(j).category)) == Some(j.category@),
        spec_decode_utf16(le_units(spec_server_info(j).queue)) == Some(j.queue@),
        spec_decode_utf16(le_units(spec_server_info(j).unavailable_message)) == Some(
            j.unavailable_message@,
        ),
        spec_decode_utf16(le_units(spec_server_info(j).population)) == Some(
            match j.population {
                Some(p) => p@,
                None => "<b><font color=\"#FF0000\">Offline</font></b>"@,
            },
        ),
        j.address is None ==> spec_server_info(j).address == 0,
        j.address matches Some(a) ==> spec_server_info(j).address == spec_ipv4_to_u32(Some(a@)),
{
    lemma_utf16_roundtrip(j.name@ + "(0)"@);
    lemma_utf16_roundtrip(j.title@ + "(0)"@);
    lemma_utf16_roundtrip(j.category@);
    lemma_utf16_roundtrip(j.queue@);
    lemma_utf16_roundtrip(j.unavailable_message@);
    match j.population {
        Some(p) => lemma_utf16_roundtrip(p@),
        None => lemma_utf16_roundtrip("<b><font color=\"#FF0000\">Offline</font></b>"@),
    }
    match j.host {
        Some(h) => lemma_utf16_roundtrip(h@),
        None => {},
    }
}

/// The laws of [`lemma_server_info_laws`], for every server of a list.
proof fn lemma_server_list_laws(json: Seq<ServerInfoJSON>, out: Seq<ServerInfoView>)
    requires
        out == json.map_values(|j: ServerInfoJSON| spec_server_info(j)),
    ensures
        out.len() == json.len(),
        forall|i: int|
            0 <= i < out.len() ==> {
                let j = json[i];
                let o = #[trigger] out[i];
                &&& o.id == j.id
                &&& o.port == j.port
                &&& o.available == j.available
                &&& (o.host is Some <==> (j.address is None && j.host is Some))
                &&& (o.host matches Some(b) ==> (j.host matches Some(h) && spec_decode_utf16(
                    le_units(b),
                ) == Some(h@)))
                &&& spec_decode_utf16(le_units(o.name)) == Some(j.name@ + "(0)"@)
                &&& spec_decode_utf16(le_units(o.title)) == Some(j.title@ + "(0)"@)
                &&& (j.address is None ==> o.address == 0)
            },
{
    assert forall|i: int| 0 <= i < out.len() implies out[i] == spec_server_info(json[i]) && {
        let j = json[i];
        let o = out[i];
        &&& o.id == j.id
        &&& o.port == j.port
        &&& o.available == j.available
        &&& (o.host is Some <==> (j.address is None && j.host is Some))
        &&& (o.host matches Some(b) ==> (j.host matches Some(h) && spec_decode_utf16(le_units(b))
            == Some(h@)))
        &&& spec_decode_utf16(le_units(o.name)) == Some(j.name@ + "(0)"@)
        &&& spec_decode_utf16(le_units(o.title)) == Some(j.title@ + "(0)"@)
        &&& (j.address is None ==> o.address == 0)
    } by {
        lemma_server_info_laws(json[i]);
    }
}

/// The identifier the client's list gives as the last server.
pub const LAST_SERVER_ID: u32 = 2800;

/// The sort order used when the JSON list names none.
pub const DEFAULT_SORT_CRITERION: u32 = 3;

/// Converts one server.
fn convert_server(server: &ServerInfoJSON) -> (r: ServerInfo)
    ensures
        r@ == spec_server_info(*server),
{
    let mut name = server.name.clone();
    name.append("(0)");
    let mut title = server.title.clone();
    title.append("(0)");
    let population = match &server.population {
        Some(p) => p.clone(),
        None => String::from_str("<b><font color=\"#FF0000\">Offline</font></b>"),
    };
    let host = if server.address.is_some() || server.host.is_none() {
        None
    } else {
        Some(utf16_to_bytes_opt(server.host.clone()))
    };
    ServerInfo {
        id: server.id,
        name: utf16_to_bytes(&name),
        category: utf16_to_bytes(&server.category),
        title: utf16_to_bytes(&title),
        queue: utf16_to_bytes(&server.queue),
        population: utf16_to_bytes(&population),
        address: ipv4_to_u32(server.address.clone()),
        port: server.port,
        available: server.available,
        unavailable_message: utf16_to_bytes(&server.unavailable_message),
        host,
    }
}

/// Converts the JSON server list into the game client's form: every server
/// in order, the last server id 2800 and the JSON's sort criterion, 3 when
/// it names none.
pub fn parse_server_list_json(server_json: &ServerListJSON) -> (r: ServerList)
    ensures
        r@.servers == server_json.servers@.map_values(|j: ServerInfoJSON| spec_server_info(j)),
        r@.last_server_id == LAST_SERVER_ID,
        r@.servers.len() == server_json.servers@.len(),
        forall|i: int|
            0 <= i < r@.servers.len() ==> {
                let j = server_json.servers@[i];
                let o = #[trigger] r@.servers[i];
                &&& o.id == j.id
                &&& o.port == j.port
                &&& o.available == j.available
                &&& (o.host is Some <==> (j.address is None && j.host is Some))
                &&& (o.host matches Some(b) ==> (j.host matches Some(h) && spec_decode_utf16(
                    le_units(b),
                ) == Some(h@)))
                &&& spec_decode_utf16(le_units(o.name)) == Some(j.name@ + "(0)"@)
                &&& spec_decode_utf16(le_units(o.title)) == Some(j.title@ + "(0)"@)
                &&& (j.address is None ==> o.address == 0)
            },
        r@.sort_criterion == (match server_json.sort_criterion {
            Some(c) => c,
            None => DEFAULT_SORT_CRITERION,
        }),
{
    let mut servers: Vec<ServerInfo> = Vec::new();
    let n = server_json.servers.len();
    for i in 0..n
        invariant
            n == server_json.servers@.len(),
            servers@.map_values(|s: ServerInfo| s@) == server_json.servers@.take(
                i as int,
            ).map_values(|j: ServerInfoJSON| spec_server_info(j)),
    {
        let info = convert_server(&server_json.servers[i]);
        let ghost before = servers@;
        servers.push(info);
        assert(servers@ == before.push(info));
        assert(server_json.servers@.take(i + 1) == server_json.servers@.take(i as int).push(
            server_json.servers@[i as int],
        ));
        assert(servers@.map_values(|s: ServerInfo| s@) == before.map_values(|s: ServerInfo| s@).push(
            info@,
        ));
    }
    assert(server_json.servers@.take(n as int) == server_json.servers@);
    proof {
        lemma_server_list_laws(
            server_json.servers@,
            servers@.map_values(|s: ServerInfo| s@),
        );
    }
    let sort_criterion = match server_json.sort_criterion {
        Some(c) => c,
        None => DEFAULT_SORT_CRITERION,
    };
    ServerList { servers, last_server_id: LAST_SERVER_ID, sort_criterion }
}

} // verus!

verus! {

/// The decimal digit for a value below 10.
pub open spec fn dec_digit(k: int) -> char {
    (('0' as int) + k) as char
}

/// The decimal form of a byte, without leading zeros.
pub open spec fn dec(n: u8) -> Seq<char> {
    if n < 10 {
        seq![dec_digit(n as int)]
    } else if n < 100 {
        seq![dec_digit(n as int / 10), dec_digit(n as int % 10)]
    } else {
        seq![dec_digit(n as int / 100), dec_digit((n as int / 10) % 10), dec_digit(n as int % 10)]
    }
}

/// The dotted-decimal form of four bytes.
pub open spec fn dotted(a: u8, b: u8, c: u8, d: u8) -> Seq<char> {
    dec(a).push('.') + dec(b).push('.') + dec(c).push('.') + dec(d)
}

/// The number of dots in `s`.
pub open spec fn count_dots(s: Seq<char>) -> nat
    decreases s.len(),
{
    if s.len() == 0 {
        0
    } else {
        count_dots(s.drop_last()) + if s.last() == '.' {
            1nat
        } else {
            0nat
        }
    }
}

proof fn lemma_split_dots_len(s: Seq<char>)
    ensures
        split_dots(s).len() == count_dots(s) + 1,
    decreases s.len(),
{
    if s.len() > 0 {
        lemma_split_dots_len(s.drop_last());
    }
}

proof fn lemma_split_dots_append_plain(x: Seq<char>, y: Seq<char>)
    requires
        forall|i: int| 0 <= i < y.len() ==> y[i] != '.',
    ensures
        split_dots(x + y) == split_dots(x).update(
            split_dots(x).len() - 1,
            split_dots(x).last() + y,
        ),
    decreases y.len(),
{
    lemma_split_dots_len(x);
    if y.len() == 0 {
        assert(x + y == x);
        assert(split_dots(x).last() + y == split_dots(x).last());
        assert(split_dots(x).update(split_dots(x).len() - 1, split_dots(x).last()) == split_dots(
            x,
        ));
    } else {
        lemma_split_dots_append_plain(x, y.drop_last());
        assert((x + y).drop_last() == x + y.drop_last());
        assert((x + y).last() == y.last());
        assert(split_dots(x).last() + y == (split_dots(x).last() + y.drop_last()).push(y.last()));
    }
}

proof fn lemma_dec_laws(n: u8)
    ensures
        valid_octet(dec(n)),
        digits_value(dec(n)) == n,
        forall|i: int| 0 <= i < dec(n).len() ==> #[trigger] dec(n)[i] != '.',
        dec(n)[0] != '.',
{
    let s = dec(n);
    let v = n as int;
    reveal_with_fuel(digits_value, 4);
    if v < 10 {
        assert(s.drop_last().len() == 0);
    } else if v < 100 {
        assert(s.drop_last() == seq![dec_digit(v / 10)]);
        assert(s.drop_last().drop_last().len() == 0);
        assert((v / 10) * 10 + v % 10 == v);
    } else {
        assert(s.drop_last() == seq![dec_digit(v / 100), dec_digit((v / 10) % 10)]);
        assert(s.drop_last().drop_last() == seq![dec_digit(v / 100)]);
        assert(s.drop_last().drop_last().drop_last().len() == 0);
        assert(((v / 100) * 10 + (v / 10) % 10) * 10 + v % 10 == v) by (nonlinear_arith)
            requires
                100 <= v < 256,
        ;
        assert(v / 100 >= 1);
    }
}

proof fn lemma_split_dotted(a: u8, b: u8, c: u8, d: u8)
    ensures
        split_dots(dotted(a, b, c, d)) == seq![dec(a), dec(b), dec(c), dec(d)],
{
    lemma_dec_laws(a);
    lemma_dec_laws(b);
    lemma_dec_laws(c);
    lemma_dec_laws(d);
    let e = Seq::<char>::empty();
    lemma_split_dots_append_plain(e, dec(a));
    assert(e + dec(a) == dec(a));
    assert(split_dots(e) == seq![e]);
    assert(split_dots(dec(a)) == seq![dec(a)]);
    let xa = dec(a).push('.');
    assert(xa.drop_last() == dec(a));
    assert(split_dots(xa) == seq![dec(a), e]);
    lemma_split_dots_append_plain(xa, dec(b));
    let xb = xa + dec(b);
    assert(split_dots(xb) == seq![dec(a), dec(b)]);
    let xb2 = xb.push('.');
    assert(xb2.drop_last() == xb);
    lemma_split_dots_append_plain(xb2, dec(c));
    let xc = xb2 + dec(c);
    assert(split_dots(xc) == seq![dec(a), dec(b), dec(c)]);
    let xc2 = xc.push('.');
    assert(xc2.drop_last() == xc);
    lemma_split_dots_append_plain(xc2, dec(d));
    assert(xc2 + dec(d) == dotted(a, b, c, d));
}

/// Dotted-decimal addresses read back: the dotted form of four bytes parses
/// to those bytes, and as one number it is the first byte times 2^24 plus
/// the second times 2^16 plus the third times 2^8 plus the fourth.
pub proof fn lemma_ipv4_roundtrip(a: u8, b: u8, c: u8, d: u8)
    ensures
        spec_parse_ipv4(dotted(a, b, c, d)) == Some(seq![a, b, c, d]),
        spec_ipv4_to_u32(Some(dotted(a, b, c, d))) == a as int * 16777216 + b as int * 65536
            + c as int * 256 + d as int,
{
    lemma_split_dotted(a, b, c, d);
    lemma_dec_laws(a);
    lemma_dec_laws(b);
    lemma_dec_laws(c);
    lemma_dec_laws(d);
}

/// A text with other than three dots is no IPv4 address.
pub proof fn lemma_ipv4_needs_three_dots(s: Seq<char>)
    requires
        count_dots(s) != 3,
    ensures
        spec_parse_ipv4(s) is None,
        spec_ipv4_to_u32(Some(s)) == 0,
{
    lemma_split_dots_len(s);
}

proof fn lemma_split_dots_first(x: Seq<char>, rest: Seq<char>)
    requires
        forall|i: int| 0 <= i < x.len() ==> x[i] != '.',
    ensures
        split_dots(x.push('.') + rest).len() >= 2,
        split_dots(x.push('.') + rest)[0] == x,
    decreases rest.len(),
{
    let e = Seq::<char>::empty();
    if rest.len() == 0 {
        lemma_split_dots_append_plain(e, x);
        assert(e + x == x);
        assert(split_dots(e) == seq![e]);
        assert(x.push('.') + rest == x.push('.'));
        assert(x.push('.').drop_last() == x);
    } else {
        lemma_split_dots_first(x, rest.drop_last());
        assert((x.push('.') + rest).drop_last() == x.push('.') + rest.drop_last());
    }
}

/// A leading zero makes an address invalid: a `0` put before the dotted
/// form of any four bytes gives a text that does not parse.
pub proof fn lemma_ipv4_rejects_leading_zero(a: u8, b: u8, c: u8, d: u8)
    ensures
        spec_parse_ipv4(seq!['0'] + dotted(a, b, c, d)) is None,
        spec_ipv4_to_u32(Some(seq!['0'] + dotted(a, b, c, d))) == 0,
{
    lemma_dec_laws(a);
    let z = seq!['0'];
    let first = z + dec(a);
    let rest = dec(b).push('.') + dec(c).push('.') + dec(d);
    assert(seq!['0'] + dotted(a, b, c, d) == first.push('.') + rest);
    assert forall|i: int| 0 <= i < first.len() implies first[i] != '.' by {
        if i > 0 {
            assert(first[i] == dec(a)[i - 1]);
        }
    }
    lemma_split_dots_first(first, rest);
    assert(first[0] == '0');
}

} // verus!
