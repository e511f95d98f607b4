use rustc_host::encoding::utf8_check;
use rustc_host::host_from_output;
use rustc_host::scan::{find_host_lines, find_host_search};
use rustc_host::Error;

fn bytes(text: &str) -> Vec<u8> {
    text.as_bytes().to_vec()
}

#[test]
fn host_line_exact() {
    let out = bytes("rustc 1.66.0 (69f9c33d7 2022-12-12)\nhost: x86_64-pc-windows-msvc\nrelease: 1.66.0\n");
    assert_eq!(host_from_output(out), Ok("x86_64-pc-windows-msvc".to_string()));
}

#[test]
fn single_host_line_any_order() {
    let out = bytes("release: 1.66.0\nLLVM version: 15.0.2\nhost: riscv64gc-unknown-linux-gnu\nbinary: rustc\n");
    assert_eq!(host_from_output(out), Ok("riscv64gc-unknown-linux-gnu".to_string()));
}

#[test]
fn first_host_line_wins() {
    let out = bytes("host: first-triple\nhost: second-triple\n");
    assert_eq!(host_from_output(out), Ok("first-triple".to_string()));
}

#[test]
fn host_on_first_line() {
    let out = bytes("host: aarch64-unknown-linux-gnu\nrelease: 1.66.0\n");
    assert_eq!(host_from_output(out), Ok("aarch64-unknown-linux-gnu".to_string()));
}

#[test]
fn host_on_last_line_without_newline() {
    let out = bytes("binary: rustc\nhost: i686-pc-windows-gnu");
    assert_eq!(host_from_output(out), Ok("i686-pc-windows-gnu".to_string()));
}

#[test]
fn empty_host_value() {
    let out = bytes("binary: rustc\nhost: \nrelease: 1.66.0\n");
    assert_eq!(host_from_output(out), Ok(String::new()));
}

#[test]
fn value_kept_untrimmed() {
    let out = bytes("host:  padded \nrelease: 1.66.0\n");
    assert_eq!(host_from_output(out), Ok(" padded ".to_string()));
}

#[test]
fn multibyte_host_value() {
    let out = bytes("binary: rustc\nhost: zrchen-vendor-\u{e9}t\u{e9}\n");
    assert_eq!(host_from_output(out), Ok("zrchen-vendor-\u{e9}t\u{e9}".to_string()));
}

#[test]
fn missing_host_line() {
    let out = bytes("rustc 1.66.0\nbinary: rustc\nrelease: 1.66.0\n");
    assert_eq!(host_from_output(out), Err(Error::UnexpectedOutputStructure));
}

#[test]
fn prefix_not_at_line_start() {
    let out = bytes("the host: is elsewhere\nxhost: nope\n");
    assert_eq!(host_from_output(out), Err(Error::UnexpectedOutputStructure));
}

#[test]
fn empty_output() {
    assert_eq!(host_from_output(Vec::new()), Err(Error::UnexpectedOutputStructure));
}

#[test]
fn invalid_utf8_at_start() {
    assert_eq!(host_from_output(vec![0xff, 0xfe, 0x00]), Err(Error::Utf8(0)));
}

#[test]
fn invalid_utf8_position() {
    let mut out = bytes("ab");
    out.push(0xff);
    assert_eq!(host_from_output(out), Err(Error::Utf8(2)));
}

#[test]
fn invalid_utf8_beats_host_line() {
    // The line scan must not run on undecodable output, even when a clean
    // `host: ` line precedes the bad bytes.
    let mut out = bytes("host: x\n");
    out.push(0xc0);
    out.push(0xaf);
    assert_eq!(host_from_output(out), Err(Error::Utf8(8)));
}

#[test]
fn truncated_multibyte_at_end() {
    let mut out = bytes("host: ");
    out.push(0xe2);
    out.push(0x82);
    assert_eq!(host_from_output(out), Err(Error::Utf8(6)));
}

#[test]
fn overlong_and_surrogate_rejected() {
    // 0xc0 0x80 is an overlong encoding of NUL.
    assert_eq!(utf8_check(&[0xc0, 0x80]), Some(0));
    // 0xed 0xa0 0x80 encodes a surrogate.
    assert_eq!(utf8_check(&[0xed, 0xa0, 0x80]), Some(0));
    // A lone continuation byte.
    assert_eq!(utf8_check(&[0x41, 0x80]), Some(1));
    // Codepoints beyond 0x10ffff.
    assert_eq!(utf8_check(&[0xf5, 0x80, 0x80, 0x80]), Some(0));
    // Well-formed one-, two-, three- and four-byte scalars.
    assert_eq!(utf8_check("A\u{e9}\u{20ac}\u{1f600}".as_bytes()), None);
}

#[test]
fn strategies_agree() {
    let cases: Vec<Vec<u8>> = vec![
        bytes(""),
        bytes("\n"),
        bytes("host: x86_64-pc-windows-msvc"),
        bytes("host: x86_64-pc-windows-msvc\n"),
        bytes("rustc 1.66.0\nhost: a\nrelease: 1.66.0\n"),
        bytes("rustc 1.66.0\nbinary: rustc\nrelease: 1.66.0\n"),
        bytes("host: first\nhost: second\n"),
        bytes("xhost: not-a-line-start\n"),
        bytes("almost host: no\nhost:no-space\nhost: yes\n"),
        bytes("host"),
        bytes("host: "),
        bytes("\nhost: after-blank-line\n"),
        bytes("\n\n\nhost: c\n\n"),
        bytes("trailing text host: mid\nline\n"),
    ];
    for case in &cases {
        assert_eq!(find_host_lines(case), find_host_search(case), "case {:?}", case);
    }
    // A sweep of small synthetic outputs over an alphabet that exercises the
    // prefix, line feeds and ordinary bytes.
    let alphabet: &[&str] = &["host: ", "h", "\n", "a\n", "host", ": ", "x"];
    for i in 0..alphabet.len() {
        for j in 0..alphabet.len() {
            for k in 0..alphabet.len() {
                let mut case = Vec::new();
                case.extend_from_slice(alphabet[i].as_bytes());
                case.extend_from_slice(alphabet[j].as_bytes());
                case.extend_from_slice(alphabet[k].as_bytes());
                assert_eq!(find_host_lines(&case), find_host_search(&case), "case {:?}", case);
            }
        }
    }
}

#[test]
fn span_matches_extracted_value() {
    let out = bytes("binary: rustc\nhost: wasm32-unknown-unknown\nrelease: 1.66.0\n");
    let (a, b) = find_host_lines(&out).unwrap();
    assert_eq!(&out[a..b], "wasm32-unknown-unknown".as_bytes());
    assert_eq!(host_from_output(out), Ok("wasm32-unknown-unknown".to_string()));
}

#[test]
fn end_to_end_scenario() {
    let out = bytes(
        "rustc 1.66.0 (69f9c33d7 2022-12-12)\n\
         binary: rustc\n\
         commit-hash: 69f9c33d71c871fc16ac445211281c6e7a340943\n\
         commit-date: 2022-12-12\n\
         host: aarch64-apple-darwin\n\
         release: 1.66.0\n\
         LLVM version: 15.0.2\n",
    );
    assert_eq!(host_from_output(out), Ok("aarch64-apple-darwin".to_string()));
}
