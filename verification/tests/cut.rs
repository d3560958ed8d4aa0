use haproxy::cut::{
    cut_line, delimiter_or_tab, flush_each_line, process_line, write_entry, Action,
};
use haproxy::entry::{Error, LogEntry};
use haproxy::field::Fields;
use haproxy::slicer::SliceError;

fn sample_line() -> String {
    ["haproxy[14389]: 10.0.1.2:33317 [06/Feb/2009:12:14:14.655] ",
     "http-in static/srv1 10/0/30/69/109 200 2750 cookie_in cookie_out ---- ",
     "1/1/1/1/0 0/0 {1wt.eu} {} \"GET /index.html HTTP/1.1\"\n"].concat()
}

fn cut(names: &str, line: &str, delimiter: &[u8]) -> Option<Vec<u8>> {
    let fields = Fields::decode(names).unwrap();
    let mut out = Vec::new();
    match cut_line(&fields, line.as_bytes(), delimiter, &mut out) {
        Ok(()) => Some(out),
        Err(_) => {
            assert!(out.is_empty());
            None
        }
    }
}

#[test]
fn cut_joins_the_fields_in_order() {
    assert_eq!(
        cut("status_code,http_method,client_ip", &sample_line(), b"\t").unwrap(),
        b"200\tGET\t10.0.1.2\n"
    );
    assert_eq!(cut("pid", &sample_line(), b"\t").unwrap(), b"14389\n");
    assert_eq!(cut("pid,pid", &sample_line(), b", ").unwrap(), b"14389, 14389\n");
    assert_eq!(cut("pid,Tt", &sample_line(), b"").unwrap(), b"14389109\n");
}

#[test]
fn cut_keeps_empty_columns() {
    assert_eq!(
        cut("captured_header[1][0],pid,captured_header[0][5]", &sample_line(), b";").unwrap(),
        b";14389;\n"
    );
}

#[test]
fn cut_with_empty_selection_writes_an_empty_line() {
    assert_eq!(cut("", &sample_line(), b"\t").unwrap(), b"\n");
}

#[test]
fn cut_skips_a_line_that_does_not_parse() {
    assert_eq!(cut("pid", "haproxy[14389: no closing bracket\n", b"\t"), None);
    assert_eq!(cut("", "not a log line\n", b"\t"), None);
}

#[test]
fn cut_says_why_a_line_does_not_parse() {
    let fields = Fields::decode("pid").unwrap();
    let mut out = b"before".to_vec();
    let r = cut_line(&fields, b"haproxy[14389: rest\n", b"\t", &mut out);
    assert!(matches!(r, Err(Error::SliceError(SliceError::ExpectedToken(b']')))));
    assert_eq!(out, b"before");
}

#[test]
fn cut_appends_to_what_is_there() {
    let fields = Fields::decode("pid,Tq").unwrap();
    let mut out = b"before\n".to_vec();
    cut_line(&fields, sample_line().as_bytes(), b"\t", &mut out).unwrap();
    cut_line(&fields, sample_line().as_bytes(), b"\t", &mut out).unwrap();
    assert_eq!(out, b"before\n14389\t10\n14389\t10\n");
}

#[test]
fn cut_twice_gives_the_same_output() {
    let names = "accept_date,captured_header[0][0],http_uri";
    let once = cut(names, &sample_line(), b"|");
    let again = cut(names, &sample_line(), b"|");
    assert_eq!(once, again);
    assert_eq!(once.unwrap(), b"06/Feb/2009:12:14:14.655|1wt.eu|/index.html\n");
}

#[test]
fn write_entry_of_a_parsed_line() {
    let line = sample_line();
    let entry = LogEntry::from_bytes(line.as_bytes()).unwrap();
    let fields = Fields::decode("frontend_name,backend_name").unwrap();
    let mut out = Vec::new();
    write_entry(&fields, &entry, b" -> ", &mut out);
    assert_eq!(out, b"http-in -> static\n");
}

#[test]
fn delimiter_defaults_to_a_tab() {
    assert_eq!(delimiter_or_tab(b""), b"\t");
    assert_eq!(delimiter_or_tab(b","), b",");
    assert_eq!(delimiter_or_tab(b"\t\t"), b"\t\t");
}

#[test]
fn process_line_says_what_to_do() {
    let fields = Fields::decode("pid").unwrap();
    let mut out = Vec::new();
    let line = sample_line();
    assert_eq!(process_line(&fields, line.as_bytes(), b"\t", false, &mut out), Action::Emit);
    assert_eq!(out, b"14389\n");
    assert_eq!(process_line(&fields, line.as_bytes(), b"\t", true, &mut out), Action::Emit);
    assert_eq!(out, b"14389\n14389\n");
    assert_eq!(process_line(&fields, b"garbage\n", b"\t", true, &mut out), Action::Report);
    assert_eq!(process_line(&fields, b"garbage\n", b"\t", false, &mut out), Action::Skip);
    assert_eq!(out, b"14389\n14389\n");
}

#[test]
fn flush_each_line_on_a_terminal_or_on_demand() {
    assert!(!flush_each_line(false, false));
    assert!(flush_each_line(true, false));
    assert!(flush_each_line(false, true));
    assert!(flush_each_line(true, true));
}
