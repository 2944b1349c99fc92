use circles::reader::{
    handle_new_message, hostname_as_ip, keepalive_period, reader_command_args, reader_loop_step,
    validate_hostname, MessageResponse, ReaderError, ReaderErrorKind, ReaderMessage,
};
use circles::tags::{Tag, TagReport};

fn construct_tag_report(antenna_id: u16, peak_rssi: i8) -> TagReport {
    TagReport {
        epc: vec![0, 0, 0, 0, 0, 0, 0, 0, 0, 0, 0, 0],
        antenna_id: Some(antenna_id),
        peak_rssi: Some(peak_rssi),
    }
}

fn construct_report_message(antenna_id: u16, peak_rssi: i8) -> ReaderMessage {
    let report = construct_tag_report(antenna_id, peak_rssi);
    ReaderMessage::RoAccessReport(vec![report])
}

#[test]
fn should_convert_hostname_to_ip() {
    let ipv4 = hostname_as_ip("fx9600749620");

    assert!(ipv4.is_ok());
    assert_eq!([169, 254, 150, 32], ipv4.unwrap())
}

#[test]
fn should_return_err_if_hostname_cannot_convert() {
    let ipv4 = hostname_as_ip("fx960074XX20");

    assert!(ipv4.is_err_and(
        |err| err.kind == ReaderErrorKind::IncorrectHostname("fx960074XX20".to_string())
    ));
}

#[test]
fn should_add_correct_tag_to_vector() {
    let mut vec: Vec<Tag> = vec![];

    let message = construct_report_message(1, -40);
    handle_new_message(message, &mut vec);

    assert_eq!(1, vec.len());
}

#[test]
fn should_ignore_incorrect_tags() {
    let mut vec: Vec<Tag> = vec![];

    let message = construct_report_message(10, -40);
    handle_new_message(message, &mut vec);

    assert_eq!(0, vec.len());
}

#[test]
fn should_ignore_other_messages() {
    let mut vec: Vec<Tag> = vec![];

    let response = handle_new_message(ReaderMessage::Other, &mut vec);

    assert_eq!(0, vec.len());
    assert!(response == MessageResponse::Nothing);
}

#[test]
fn should_respond_to_keepalive_with_keepalive_ack() {
    let mut tags: Vec<Tag> = vec![];

    let response = handle_new_message(ReaderMessage::Keepalive, &mut tags);

    assert!(response == MessageResponse::KeepaliveAck);
    assert_eq!(0, tags.len());
}

#[test]
fn report_keeps_order_and_drops_only_invalid_readings() {
    let mut tags = vec![Tag::build("old".into(), 2, -10).unwrap()];
    let reports = vec![
        construct_tag_report(1, -40),
        construct_tag_report(4, -40),
        TagReport { epc: vec![0xab], antenna_id: Some(3), peak_rssi: Some(-80) },
        construct_tag_report(2, 3),
    ];
    let response = handle_new_message(ReaderMessage::RoAccessReport(reports), &mut tags);
    assert!(response == MessageResponse::Nothing);
    assert_eq!(tags.len(), 3);
    assert_eq!(tags[0].id, "old");
    assert_eq!((tags[1].antenna, tags[1].strength), (1, -40));
    assert_eq!((tags[2].id.as_str(), tags[2].antenna), ("AB", 3));
}

#[test]
fn hostname_with_plus_prefixed_bytes_converts() {
    assert_eq!(hostname_as_ip("fx960074+f0a").unwrap(), [169, 254, 15, 10]);
    assert_eq!(hostname_as_ip("fx960074ffFF").unwrap(), [169, 254, 255, 255]);
    assert!(hostname_as_ip("fx960074-1ff").is_err());
}

#[test]
fn hostname_from_rendered_mac_bytes_round_trips() {
    for third in [0u8, 9, 10, 150, 255] {
        for fourth in [0u8, 32, 171] {
            let hostname = format!("fx960074{:02X}{:02X}", third, fourth);
            assert_eq!(hostname_as_ip(&hostname).unwrap(), [169, 254, third, fourth]);
        }
    }
}

#[test]
fn hostname_errors_carry_the_hostname_and_the_reason() {
    let err = hostname_as_ip("fx960074XX20").unwrap_err();
    assert_eq!(err.message, "Could not convert mac address to IP");
    assert_eq!(
        err.to_string(),
        "Hostname fx960074XX20 is incorrect. Original error: Could not convert mac address to IP"
    );
    assert_eq!(err.kind.to_string(), "IncorrectHostname");
}

#[test]
fn hostnames_must_have_twelve_bytes() {
    assert!(validate_hostname(&"fx9600749620".to_string()).is_ok());
    let err = validate_hostname(&"fx96".to_string()).unwrap_err();
    assert!(err.kind == ReaderErrorKind::IncorrectHostname("fx96".to_string()));
    assert_eq!(err.message, "This should be exactly 12 characters, but was 4");
    let err = validate_hostname(&"fx9600749620a".to_string()).unwrap_err();
    assert_eq!(err.message, "This should be exactly 12 characters, but was 13");
}

#[test]
fn reader_error_texts() {
    let e = ReaderError {
        kind: ReaderErrorKind::CouldNotConnect("host".to_string()),
        message: "refused".to_string(),
    };
    assert_eq!(e.to_string(), "Could not connect to hostname host. Original error: refused");
    assert_eq!(e.kind.to_string(), "CouldNotConnect");
    let e = ReaderError { kind: ReaderErrorKind::Unknown, message: "boom".to_string() };
    assert_eq!(e.to_string(), "Encountered an unexpected error in the reader. Message: boom");
    assert_eq!(e.kind.to_string(), "Unknown");
    assert!(ReaderErrorKind::Unknown != ReaderErrorKind::LostConnection);
    assert!(
        ReaderErrorKind::CouldNotConnect("a".to_string())
            != ReaderErrorKind::IncorrectHostname("a".to_string())
    );
}

#[test]
fn loop_refreshes_and_gives_up_after_the_intervals() {
    let d = reader_loop_step(125_000_000, 1_250_000_000);
    assert!(!d.emit_update && !d.connection_lost);
    let d = reader_loop_step(125_000_001, 1_250_000_001);
    assert!(d.emit_update && d.connection_lost);
    let d = reader_loop_step(0, 0);
    assert!(!d.emit_update && !d.connection_lost);
}

#[test]
fn reader_command_on_windows_joins_the_jars_with_a_semicolon() {
    let args = reader_command_args(true, r"C:\lib\api.jar", r"C:\dist\reader.jar", "unused");
    assert_eq!(
        args,
        vec![
            "-cp".to_string(),
            r"C:\lib\api.jar;C:\dist\reader.jar".to_string(),
            "reader.PrintRFIDReader.PrintRFIDTags".to_string(),
        ]
    );
}

#[test]
fn reader_command_on_linux_sets_the_library_path_first() {
    let args = reader_command_args(false, "/lib/api.jar", "/dist/reader.jar", "/lib/x86_64");
    assert_eq!(
        args,
        vec![
            "-Djava.library.path='/lib/x86_64'".to_string(),
            "-cp".to_string(),
            "/lib/api.jar:/dist/reader.jar".to_string(),
            "reader.PrintRFIDReader.PrintRFIDTags".to_string(),
        ]
    );
}

#[test]
fn keepalive_is_half_the_refresh_interval() {
    assert_eq!(keepalive_period(), 62);
}
