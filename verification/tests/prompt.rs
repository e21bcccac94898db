use cred_broker::prompt::code_of_line;
use cred_broker::prompt::trim_trailing;

#[test]
fn test_trim_trailing_newline() {
    assert_eq!(trim_trailing(b"123456\n".to_vec()), b"123456".to_vec());
    assert_eq!(trim_trailing(b"123456\r\n".to_vec()), b"123456".to_vec());
    assert_eq!(trim_trailing(b"123456 \t".to_vec()), b"123456".to_vec());
}

#[test]
fn test_trim_keeps_interior_whitespace() {
    assert_eq!(trim_trailing(b" 12 34 \n".to_vec()), b" 12 34".to_vec());
}

#[test]
fn test_trim_all_whitespace() {
    assert_eq!(trim_trailing(b" \t\r\n".to_vec()), Vec::<u8>::new());
    assert_eq!(trim_trailing(Vec::new()), Vec::<u8>::new());
}

#[test]
fn test_code_of_line_reads_code() {
    let code = code_of_line(Some(b"987654\n".to_vec())).expect("a code was entered");
    assert_eq!(code, b"987654".to_vec());
}

#[test]
fn test_code_of_line_closed_stream() {
    assert!(code_of_line(None).is_none());
}

#[test]
fn test_code_of_line_blank_entry() {
    assert!(code_of_line(Some(b"\n".to_vec())).is_none());
    assert!(code_of_line(Some(b"   \n".to_vec())).is_none());
    assert!(code_of_line(Some(Vec::new())).is_none());
}
