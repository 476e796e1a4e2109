use transcoder_core::grpc::{failure_line, is_metadata_text, Status};

#[test]
fn failure_line_names_call_code_and_message() {
    let status = Status { code: 7, message: "no".to_string() };
    assert_eq!(
        failure_line("StartCascade", &status),
        "StartCascade 错误 [The caller does not have permission to execute the specified operation]: no"
    );
}

#[test]
fn every_code_has_its_words() {
    let words = vec![
        "The operation completed successfully",
        "The operation was cancelled",
        "Unknown error",
        "Client specified an invalid argument",
        "Deadline expired before operation could complete",
        "Some requested entity was not found",
        "Some entity that we attempted to create already exists",
        "The caller does not have permission to execute the specified operation",
        "Some resource has been exhausted",
        "The system is not in a state required for the operation's execution",
        "The operation was aborted",
        "Operation was attempted past the valid range",
        "Operation is not implemented or not supported",
        "Internal error",
        "The service is currently unavailable",
        "Unrecoverable data loss or corruption",
        "The request does not have valid authentication credentials",
    ];
    for (code, word) in words.iter().enumerate() {
        let code = code as i32;
        let status = Status { code, message: "m".to_string() };
        assert_eq!(failure_line("gRPC", &status), format!("gRPC 错误 [{}]: m", word));
        assert_eq!(format!("{}", tonic::Code::from_i32(code)), word.to_string());
        assert_eq!(i32::from(tonic::Code::from_i32(code)), code);
    }
    for code in vec![-1, 17, i32::MAX, i32::MIN] {
        let status = Status { code, message: String::new() };
        assert_eq!(failure_line("gRPC", &status), "gRPC 错误 [Unknown error]: ");
    }
}

#[test]
fn metadata_text_is_judged_byte_by_byte() {
    for b in 0u8..128 {
        let s = (b as char).to_string();
        assert_eq!(is_metadata_text(&s), b == 9 || (b >= 32 && b != 127));
    }
    assert!(is_metadata_text("é案😀"));
    assert!(!is_metadata_text("é案😀\r"));
}
