use enterance::server_list::{parse_ipv4, ServerInfoJSON, ServerListJSON};
use enterance::{ipv4_to_u32, parse_server_list_json, utf16_to_bytes, utf16_to_bytes_opt};

fn std_utf16(s: &str) -> Vec<u8> {
    s.encode_utf16().flat_map(|c| c.to_le_bytes().to_vec()).collect()
}

#[test]
fn utf16_of_known_strings() {
    assert_eq!(utf16_to_bytes(&"A".to_string()), vec![0x41, 0x00]);
    assert_eq!(utf16_to_bytes(&"😀".to_string()), vec![0x3D, 0xD8, 0x00, 0xDE]);
    assert_eq!(utf16_to_bytes(&String::new()), Vec::<u8>::new());
}

#[test]
fn utf16_matches_std() {
    for s in ["Arborea(0)", "ü€𝄞x", "\u{FFFF}\u{10000}\u{10FFFF}", "<b>Offline</b>"].iter() {
        assert_eq!(utf16_to_bytes(&s.to_string()), std_utf16(s), "{:?}", s);
    }
}

#[test]
fn utf16_opt() {
    assert_eq!(utf16_to_bytes_opt(None), Vec::<u8>::new());
    assert_eq!(utf16_to_bytes_opt(Some("é".to_string())), vec![0xE9, 0x00]);
}

#[test]
fn ipv4_dot_decimal() {
    let cases: [(&str, Option<[u8; 4]>); 16] = [
        ("127.0.0.1", Some([127, 0, 0, 1])),
        ("0.0.0.0", Some([0, 0, 0, 0])),
        ("255.255.255.255", Some([255, 255, 255, 255])),
        ("192.168.1.100", Some([192, 168, 1, 100])),
        ("256.0.0.1", None),
        ("01.2.3.4", None),
        ("1.2.3", None),
        ("1.2.3.4.5", None),
        ("", None),
        ("1..2.3", None),
        ("a.b.c.d", None),
        (" 1.2.3.4", None),
        ("1.2.3.4 ", None),
        ("0x1.2.3.4", None),
        ("1.2.3.0004", None),
        ("10.0.0.010", None),
    ];
    for (s, expected) in cases.iter() {
        assert_eq!(parse_ipv4(s), expected.map(|o| o.to_vec()), "{:?}", s);
        let as_u32 = expected.map(u32::from_be_bytes).unwrap_or(0);
        assert_eq!(ipv4_to_u32(Some(s.to_string())), as_u32, "{:?}", s);
    }
    assert_eq!(ipv4_to_u32(None), 0);
    assert_eq!(ipv4_to_u32(Some("1.2.3.4".to_string())), 0x01020304);
}

fn server(address: Option<&str>, host: Option<&str>, population: Option<&str>) -> ServerInfoJSON {
    ServerInfoJSON {
        id: 2800,
        name: "Arborea".to_string(),
        category: "PvE".to_string(),
        title: "Main".to_string(),
        queue: "q".to_string(),
        population: population.map(|s| s.to_string()),
        address: address.map(|s| s.to_string()),
        port: 7801,
        available: 1,
        unavailable_message: "down".to_string(),
        host: host.map(|s| s.to_string()),
    }
}

#[test]
fn server_list_conversion() {
    let json = ServerListJSON {
        sort_criterion: None,
        servers: vec![
            server(Some("10.0.0.1"), Some("ignored.example"), Some("Low")),
            server(None, Some("play.example"), None),
            server(None, None, None),
        ],
    };
    let list = parse_server_list_json(&json);
    assert_eq!(list.last_server_id, 2800);
    assert_eq!(list.sort_criterion, 3);
    assert_eq!(list.servers.len(), 3);
    let first = &list.servers[0];
    assert_eq!(first.id, 2800);
    assert_eq!(first.name, std_utf16("Arborea(0)"));
    assert_eq!(first.title, std_utf16("Main(0)"));
    assert_eq!(first.category, std_utf16("PvE"));
    assert_eq!(first.queue, std_utf16("q"));
    assert_eq!(first.population, std_utf16("Low"));
    assert_eq!(first.address, 0x0A000001);
    assert_eq!(first.port, 7801);
    assert_eq!(first.available, 1);
    assert_eq!(first.unavailable_message, std_utf16("down"));
    assert_eq!(first.host, None);
    let second = &list.servers[1];
    assert_eq!(second.address, 0);
    assert_eq!(second.host, Some(std_utf16("play.example")));
    assert_eq!(second.population, std_utf16("<b><font color=\"#FF0000\">Offline</font></b>"));
    assert_eq!(list.servers[2].host, None);

    let with_sort = ServerListJSON { sort_criterion: Some(1), servers: vec![] };
    let l2 = parse_server_list_json(&with_sort);
    assert_eq!(l2.sort_criterion, 1);
    assert!(l2.servers.is_empty());
}

#[test]
fn utf16_of_joined_strings_is_joined_encodings() {
    let mut joined = utf16_to_bytes(&"Arborea".to_string());
    joined.extend(utf16_to_bytes(&"(0)".to_string()));
    assert_eq!(utf16_to_bytes(&"Arborea(0)".to_string()), joined);
    let mut astral = utf16_to_bytes(&"𝄞".to_string());
    astral.extend(utf16_to_bytes(&"é".to_string()));
    assert_eq!(utf16_to_bytes(&"𝄞é".to_string()), astral);
}

#[test]
fn utf16_bytes_decode_back() {
    for s in ["", "Arborea(0)", "ü€𝄞x", "\u{FFFF}\u{10000}\u{10FFFF}", "😀😀"].iter() {
        let bytes = utf16_to_bytes(&s.to_string());
        assert_eq!(bytes.len() % 2, 0);
        let units: Vec<u16> = bytes.chunks(2).map(|c| u16::from_le_bytes([c[0], c[1]])).collect();
        assert_eq!(String::from_utf16(&units).unwrap(), *s);
    }
}
