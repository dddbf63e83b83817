use prost::Message;
use query::device::{
    parse_http_reply, Client, HttpQuery, Method, QueryType, Request, CLIENT_TIMEOUT_SECS,
    REQUEST_TIMEOUT_SECS, SDK_VERSION,
};
use query::wire::WireError;

fn varint_field(tag: u32, value: u64) -> Vec<u8> {
    let mut buf = Vec::new();
    prost::encoding::uint64::encode(tag, &value, &mut buf);
    buf
}

fn string_field(tag: u32, text: &str) -> Vec<u8> {
    let mut buf = Vec::new();
    prost::encoding::string::encode(tag, &text.to_string(), &mut buf);
    buf
}

fn bytes_field(tag: u32, payload: &[u8]) -> Vec<u8> {
    let mut buf = Vec::new();
    prost::encoding::bytes::encode(tag, &payload.to_vec(), &mut buf);
    buf
}

fn float_field(tag: u32, value: f32) -> Vec<u8> {
    let mut buf = Vec::new();
    prost::encoding::float::encode(tag, &value, &mut buf);
    buf
}

fn delimited(body: &[u8]) -> Vec<u8> {
    let mut buf = Vec::new();
    prost::encoding::encode_varint(body.len() as u64, &mut buf);
    buf.extend_from_slice(body);
    buf
}

fn identity() -> Vec<u8> {
    let mut buf = string_field(1, "Early Impala 91");
    buf.extend(string_field(2, ""));
    buf.extend(bytes_field(3, &[0xde, 0xad, 0xbe, 0xef, 0xff, 0x80]));
    buf.extend(string_field(4, "fk-bundled-fkb.elf"));
    buf.extend(string_field(6, "Early Impala 91"));
    buf.extend(bytes_field(7, &[0x01, 0x02, 0x03, 0xfe]));
    buf
}

fn status(logs: &str) -> Vec<u8> {
    let mut buf = varint_field(1, 1);
    buf.extend(varint_field(2, 179_421));
    buf.extend(bytes_field(3, &identity()));
    buf.extend(bytes_field(5, &varint_field(1, 4100)));
    buf.extend(bytes_field(6, &varint_field(2, 65_536)));
    buf.extend(varint_field(11, 1_600_000_000));
    if !logs.is_empty() {
        buf.extend(string_field(13, logs));
    }
    buf
}

fn module_readings(position: u64, name: &str, value: f32) -> Vec<u8> {
    let mut module = varint_field(1, position);
    module.extend(string_field(2, name));
    module.extend(varint_field(5, 0));
    let mut reading = bytes_field(1, &string_field(2, "temp"));
    reading.extend(float_field(2, value));
    let mut buf = bytes_field(1, &module);
    buf.extend(bytes_field(2, &reading));
    buf
}

fn live_readings() -> Vec<u8> {
    let mut buf = varint_field(1, 1_600_000_123);
    buf.extend(bytes_field(2, &module_readings(0, "modules.diagnostics", 1.5)));
    buf.extend(bytes_field(2, &module_readings(1, "modules.water.temp", 21.25)));
    buf.extend(bytes_field(2, &module_readings(2, "modules.weather", -3.0)));
    buf
}

fn status_reply(logs: &str, with_readings: bool) -> Vec<u8> {
    let mut reply = varint_field(1, 15);
    reply.extend(bytes_field(3, &status(logs)));
    if with_readings {
        reply.extend(bytes_field(7, &live_readings()));
    }
    delimited(&reply)
}

fn logs_of(len: usize) -> String {
    let line = "00179421 info  readings taken\n";
    let mut logs = String::new();
    while logs.len() < len {
        logs.push_str(line);
    }
    logs.truncate(len);
    logs
}

#[test]
pub fn test_parse_status() -> Result<(), WireError> {
    let data = status_reply("", false);
    let data = parse_http_reply(&data)?;
    let status = data.status.unwrap();
    assert_eq!(status.identity.unwrap().device, "Early Impala 91");
    Ok(())
}

#[test]
pub fn test_parse_status_with_logs() -> Result<(), WireError> {
    let data = status_reply(&logs_of(32266), false);
    let data = parse_http_reply(&data)?;
    let status = data.status.unwrap();
    assert_eq!(status.identity.unwrap().device, "Early Impala 91");
    assert_eq!(status.logs.len(), 32266);
    Ok(())
}

#[test]
pub fn test_parse_status_with_readings() -> Result<(), WireError> {
    let data = status_reply("", true);
    let data = parse_http_reply(&data)?;
    let status = data.status.unwrap();
    assert_eq!(status.identity.unwrap().device, "Early Impala 91");
    let modules = &data.live_readings[0].modules;
    assert_eq!(modules.len(), 3);
    Ok(())
}

#[test]
fn reply_fields_are_decoded() {
    let reply = parse_http_reply(&status_reply("boot\n", true)).unwrap();
    assert_eq!(reply.reply_type, 15);
    let status = reply.status.unwrap();
    assert_eq!(status.version, 1);
    assert_eq!(status.uptime, 179_421);
    assert_eq!(status.logs, "boot\n");
    let identity = status.identity.unwrap();
    assert_eq!(identity.device, "Early Impala 91");
    assert_eq!(identity.name, "Early Impala 91");
    assert_eq!(reply.live_readings.len(), 1);
    let readings = &reply.live_readings[0];
    assert_eq!(readings.time, 1_600_000_123);
    let names: Vec<String> = readings
        .modules
        .iter()
        .map(|m| m.module.as_ref().unwrap().name.clone())
        .collect();
    assert_eq!(names, vec!["modules.diagnostics", "modules.water.temp", "modules.weather"]);
    let positions: Vec<u32> =
        readings.modules.iter().map(|m| m.module.as_ref().unwrap().position).collect();
    assert_eq!(positions, vec![0, 1, 2]);
}

#[test]
fn empty_reply_has_nothing_set() {
    let reply = parse_http_reply(&[0]).unwrap();
    assert_eq!(reply.reply_type, 0);
    assert!(reply.status.is_none());
    assert!(reply.live_readings.is_empty());
}

#[test]
fn empty_input_is_rejected() {
    assert!(parse_http_reply(&[]).is_err());
}

#[test]
fn every_truncation_is_rejected() {
    let data = status_reply("some logs", true);
    for cut in 0..data.len() {
        assert!(parse_http_reply(&data[..cut]).is_err(), "prefix of {} bytes", cut);
    }
    assert!(parse_http_reply(&data).is_ok());
}

#[test]
fn decoding_twice_gives_the_same() {
    let good = status_reply("x", true);
    let first = format!("{:?}", parse_http_reply(&good));
    let second = format!("{:?}", parse_http_reply(&good));
    assert_eq!(first, second);
    let bad = &good[..good.len() - 1];
    assert!(parse_http_reply(bad).is_err());
    assert!(parse_http_reply(bad).is_err());
}

#[test]
fn trailing_bytes_are_ignored() {
    let mut data = status_reply("", false);
    let alone = format!("{:?}", parse_http_reply(&data).unwrap());
    data.extend_from_slice(&[0xff, 0xff, 0x00, 0x07]);
    let followed = format!("{:?}", parse_http_reply(&data).unwrap());
    assert_eq!(alone, followed);
}

#[test]
fn length_beyond_the_input_is_rejected() {
    assert!(parse_http_reply(&[3, 8, 1]).is_err());
    assert!(parse_http_reply(&[2, 8, 1]).is_ok());
}

#[test]
fn field_that_overruns_the_reply_is_rejected() {
    // The reply is announced as two bytes, but its one field needs three.
    assert!(parse_http_reply(&[2, 8, 0x80, 0x01]).is_err());
    // A status announced as longer than the reply that holds it.
    assert!(parse_http_reply(&[2, 0x1a, 5, 8, 1, 8, 1, 8]).is_err());
}

#[test]
fn wrong_wire_type_is_rejected() {
    // The reply type as a length-delimited field.
    assert!(parse_http_reply(&delimited(&bytes_field(1, &[1]))).is_err());
    // The status as a varint.
    assert!(parse_http_reply(&delimited(&varint_field(3, 1))).is_err());
    // The live readings as a varint.
    assert!(parse_http_reply(&delimited(&varint_field(7, 1))).is_err());
    // The logs as a varint.
    assert!(parse_http_reply(&delimited(&bytes_field(3, &varint_field(13, 1)))).is_err());
}

#[test]
fn text_that_is_not_utf8_is_rejected() {
    let identity = bytes_field(1, &[0x45, 0xff, 0x61]);
    let status = bytes_field(3, &identity);
    assert!(parse_http_reply(&delimited(&bytes_field(3, &status))).is_err());
    let logs = bytes_field(13, &[0xc3]);
    assert!(parse_http_reply(&delimited(&bytes_field(3, &logs))).is_err());
}

#[test]
fn malformed_key_is_rejected() {
    // Field number zero.
    assert!(parse_http_reply(&[2, 0x00, 0x01]).is_err());
    // Wire types six and seven do not exist.
    assert!(parse_http_reply(&[2, 0x0e, 0x01]).is_err());
    assert!(parse_http_reply(&[2, 0x0f, 0x01]).is_err());
    // A key wider than 32 bits.
    assert!(parse_http_reply(&[6, 0x88, 0x80, 0x80, 0x80, 0x10, 0x01]).is_err());
}

#[test]
fn later_scalar_replaces_earlier() {
    let mut status = varint_field(2, 10);
    status.extend(string_field(13, "first"));
    status.extend(varint_field(2, 20));
    status.extend(string_field(13, "second"));
    let reply = parse_http_reply(&delimited(&bytes_field(3, &status))).unwrap();
    let status = reply.status.unwrap();
    assert_eq!(status.uptime, 20);
    assert_eq!(status.logs, "second");
}

#[test]
fn repeated_status_is_merged() {
    let first = {
        let mut s = varint_field(1, 7);
        s.extend(bytes_field(3, &string_field(1, "Early Impala 91")));
        s
    };
    let second = {
        let mut s = varint_field(2, 99);
        s.extend(bytes_field(3, &string_field(6, "Lake")));
        s
    };
    let mut body = bytes_field(3, &first);
    body.extend(bytes_field(3, &second));
    let reply = parse_http_reply(&delimited(&body)).unwrap();
    let status = reply.status.unwrap();
    assert_eq!(status.version, 7);
    assert_eq!(status.uptime, 99);
    let identity = status.identity.unwrap();
    assert_eq!(identity.device, "Early Impala 91");
    assert_eq!(identity.name, "Lake");
}

#[test]
fn repeated_readings_are_kept_in_order() {
    let mut body = bytes_field(7, &varint_field(1, 5));
    body.extend(bytes_field(7, &[]));
    body.extend(bytes_field(7, &varint_field(1, 6)));
    let reply = parse_http_reply(&delimited(&body)).unwrap();
    let times: Vec<u64> = reply.live_readings.iter().map(|r| r.time).collect();
    assert_eq!(times, vec![5, 0, 6]);
    assert!(reply.live_readings.iter().all(|r| r.modules.is_empty()));
}

#[test]
fn negative_reply_type_is_read_as_signed() {
    let mut body = Vec::new();
    prost::encoding::int32::encode(1, &-2, &mut body);
    assert_eq!(body.len(), 11);
    let reply = parse_http_reply(&delimited(&body)).unwrap();
    assert_eq!(reply.reply_type, -2);
    let reply = parse_http_reply(&delimited(&varint_field(1, 0x1_8000_0000))).unwrap();
    assert_eq!(reply.reply_type, i32::MIN);
    let reply = parse_http_reply(&delimited(&varint_field(1, 0x7_7fff_ffff))).unwrap();
    assert_eq!(reply.reply_type, i32::MAX);
}

#[test]
fn wide_uptime_keeps_its_low_bits() {
    let status = varint_field(2, 0x12_0000_0005);
    let reply = parse_http_reply(&delimited(&bytes_field(3, &status))).unwrap();
    assert_eq!(reply.status.unwrap().uptime, 5);
}

#[test]
fn unknown_fields_match_the_empty_message() {
    let group = [0x83, 0x06, 0x08, 0x01, 0x84, 0x06];
    let unmatched = [0x83, 0x06, 0x08, 0x01, 0x8c, 0x06];
    let stray_end = [0x84, 0x06];
    let fixed64 = [0x81, 0x06, 1, 2, 3, 4, 5, 6, 7, 8];
    let short_fixed32 = [0x85, 0x06, 1, 2, 3];
    let cases: Vec<Vec<u8>> = vec![
        group.to_vec(),
        unmatched.to_vec(),
        stray_end.to_vec(),
        fixed64.to_vec(),
        short_fixed32.to_vec(),
        varint_field(100, 5),
        bytes_field(100, b"abc"),
        float_field(100, 2.5),
    ];
    for body in cases {
        let data = delimited(&body);
        let ours = parse_http_reply(&data).is_ok();
        let theirs = <() as Message>::decode_length_delimited(data.as_slice()).is_ok();
        assert_eq!(ours, theirs, "{:?}", body);
    }
}

#[test]
fn client_names_itself() {
    let client = Client::new();
    assert_eq!(client.user_agent(), format!("rustfk ({})", SDK_VERSION));
    assert_eq!(client.user_agent(), "rustfk (0.1.0)");
    assert_eq!(client.timeout_secs(), 10);
    assert_eq!(CLIENT_TIMEOUT_SECS, 10);
    assert_eq!(client.request_timeout_secs(), 5);
    assert_eq!(REQUEST_TIMEOUT_SECS, 5);
}

#[test]
fn status_query_has_no_body() {
    let client = Client::new();
    let request = client.query_status("192.168.2.1");
    let expected = Request {
        method: Method::Post,
        url: "http://192.168.2.1/fk/v1".to_string(),
        user_agent: "rustfk (0.1.0)".to_string(),
        timeout_secs: 5,
        body: Vec::new(),
    };
    assert_eq!(request, expected);
}

#[test]
fn readings_query_carries_its_kind() {
    let client = Client::new();
    let request = client.query_readings("station.local:8080");
    assert_eq!(request.method, Method::Post);
    assert_eq!(request.url, "http://station.local:8080/fk/v1");
    assert_eq!(request.user_agent, client.user_agent());
    assert_eq!(request.timeout_secs, 5);
    assert_eq!(request.body, vec![2, 8, 22]);
    assert_eq!(request.body, 22i32.encode_length_delimited_to_vec());
}

#[test]
fn address_is_used_as_given() {
    let request = Client::new().query_status("");
    assert_eq!(request.url, "http:///fk/v1");
    let request = Client::new().query_status("a b/\u{e9}");
    assert_eq!(request.url, "http://a b/\u{e9}/fk/v1");
}

#[test]
fn query_kinds_have_their_numbers() {
    assert_eq!(QueryType::QueryNone.number(), 0);
    assert_eq!(QueryType::QueryGetReadings.number(), 22);
}

#[test]
fn query_encodes_like_a_one_field_message() {
    for kind in [0, 1, 22, 127, 128, 300, i32::MAX, -1, -22, i32::MIN] {
        let query = HttpQuery { query_type: kind };
        assert_eq!(query.encode_to_vec(), kind.encode_to_vec(), "{}", kind);
        assert_eq!(
            query.encode_length_delimited_to_vec(),
            kind.encode_length_delimited_to_vec(),
            "{}",
            kind
        );
    }
    assert_eq!(HttpQuery::default(), HttpQuery { query_type: 0 });
    assert_eq!(HttpQuery::default().encode_length_delimited_to_vec(), vec![0]);
    assert_eq!(
        HttpQuery { query_type: -1 }.encode_length_delimited_to_vec(),
        vec![11, 8, 0xff, 0xff, 0xff, 0xff, 0xff, 0xff, 0xff, 0xff, 0xff, 0x01]
    );
}
