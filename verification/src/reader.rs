//! The RFID reader: its errors, the hostname rules of the LLRP connection,
//! what is done with each incoming message, and when the reading loop
//! refreshes the view or gives the connection up.
use vstd::prelude::*;
use vstd::std_specs::cmp::PartialEqSpecImpl;
use vstd::string::StringSliceAdditionalSpecFns;
use vstd::utf8::is_char_boundary;
use crate::tags::{Tag, TagReport, views, report_outcome, TagView};
use crate::text::{
    str_equal, parse_hex_u8, parse_hex_u8_spec, u64_to_decimal, nat_decimal, byte_hex_upper,
    hex_digit_upper, hex_digit_value, hex_value, is_hex_digit, all_hex_digits, after_plus,
};

verus! {

/// The id of the reader operation specification that the library installs.
pub const DEFAULT_ROSPEC_ID: u32 = 1234;

/// How often (ms) the view of the readings is refreshed.
pub const REFRESH_INTERVAL: u32 = 125;

/// How long (ms) a receive waits for a message before the loop goes on.
pub const RECV_TIMEOUT_MS: u64 = 100;

/// The TCP port of the LLRP reader.
pub const DEFAULT_PORT: u16 = 5084;

/// The length of a reader's hostname: its model prefix and MAC address.
pub const HOSTNAME_LENGTH: usize = 12;

/// What went wrong with the reader.
#[derive(Debug, Clone)]
pub enum ReaderErrorKind {
    IncorrectHostname(String),
    CouldNotConnect(String),
    LostConnection,
    Unknown,
}

/// The mathematical value of a [`ReaderErrorKind`].
pub enum ReaderErrorKindView {
    IncorrectHostname(Seq<char>),
    CouldNotConnect(Seq<char>),
    LostConnection,
    Unknown,
}

impl View for ReaderErrorKind {
    type V = ReaderErrorKindView;

    open spec fn view(&self) -> ReaderErrorKindView {
        match self {
            ReaderErrorKind::IncorrectHostname(h) => ReaderErrorKindView::IncorrectHostname(h@),
            ReaderErrorKind::CouldNotConnect(h) => ReaderErrorKindView::CouldNotConnect(h@),
            ReaderErrorKind::LostConnection => ReaderErrorKindView::LostConnection,
            ReaderErrorKind::Unknown => ReaderErrorKindView::Unknown,
        }
    }
}

impl PartialEq for ReaderErrorKind {
    fn eq(&self, other: &Self) -> (r: bool) {
        match (self, other) {
            (ReaderErrorKind::IncorrectHostname(a), ReaderErrorKind::IncorrectHostname(b)) => {
                str_equal(a.as_str(), b.as_str())
            },
            (ReaderErrorKind::CouldNotConnect(a), ReaderErrorKind::CouldNotConnect(b)) => {
                str_equal(a.as_str(), b.as_str())
            },
            (ReaderErrorKind::LostConnection, ReaderErrorKind::LostConnection) => true,
            (ReaderErrorKind::Unknown, ReaderErrorKind::Unknown) => true,
            _ => false,
        }
    }
}

impl PartialEqSpecImpl for ReaderErrorKind {
    open spec fn obeys_eq_spec() -> bool {
        true
    }

    open spec fn eq_spec(&self, other: &ReaderErrorKind) -> bool {
        self@ == other@
    }
}

impl ReaderErrorKind {
    /// The name of the kind, as the frontend receives it.
    pub fn to_string(&self) -> (r: String)
        ensures
            r@ == reader_error_kind_name(self@),
    {
        match self {
            ReaderErrorKind::IncorrectHostname(_) => String::from_str("IncorrectHostname"),
            ReaderErrorKind::CouldNotConnect(_) => String::from_str("CouldNotConnect"),
            ReaderErrorKind::LostConnection => String::from_str("LostConnection"),
            ReaderErrorKind::Unknown => String::from_str("Unknown"),
        }
    }
}

/// The name of a reader error kind.
pub open spec fn reader_error_kind_name(k: ReaderErrorKindView) -> Seq<char> {
    match k {
        ReaderErrorKindView::IncorrectHostname(_) => "IncorrectHostname"@,
        ReaderErrorKindView::CouldNotConnect(_) => "CouldNotConnect"@,
        ReaderErrorKindView::LostConnection => "LostConnection"@,
        ReaderErrorKindView::Unknown => "Unknown"@,
    }
}

/// An error of the reader, with a message that explains it.
#[derive(Debug, Clone)]
pub struct ReaderError {
    pub kind: ReaderErrorKind,
    pub message: String,
}

/// The text that describes a reader error.
pub open spec fn reader_error_text(kind: ReaderErrorKindView, message: Seq<char>) -> Seq<char> {
    match kind {
        ReaderErrorKindView::IncorrectHostname(h) => "Hostname "@ + h + " is incorrect. Original error: "@
            + message,
        ReaderErrorKindView::CouldNotConnect(h) => "Could not connect to hostname "@ + h
            + ". Original error: "@ + message,
        ReaderErrorKindView::LostConnection => "Lost the connection to the reader. Message: "@
            + message,
        ReaderErrorKindView::Unknown => "Encountered an unexpected error in the reader. Message: "@
            + message,
    }
}

impl ReaderError {
    /// The text that describes the error.
    pub fn to_string(&self) -> (r: String)
        ensures
            r@ == reader_error_text(self.kind@, self.message@),
    {
        let mut s = String::new();
        match &self.kind {
            ReaderErrorKind::IncorrectHostname(h) => {
                s.append("Hostname ");
                s.append(h.as_str());
                s.append(" is incorrect. Original error: ");
            },
            ReaderErrorKind::CouldNotConnect(h) => {
                s.append("Could not connect to hostname ");
                s.append(h.as_str());
                s.append(". Original error: ");
            },
            ReaderErrorKind::LostConnection => {
                s.append("Lost the connection to the reader. Message: ");
            },
            ReaderErrorKind::Unknown => {
                s.append("Encountered an unexpected error in the reader. Message: ");
            },
        }
        s.append(self.message.as_str());
        s
    }
}

/// The byte length of a string.
pub open spec fn byte_len(s: Seq<char>) -> nat {
    vstd::utf8::encode_utf8(s).len()
}

/// Checks that a hostname has the length of a reader's hostname
/// ([`HOSTNAME_LENGTH`] bytes); the error names the hostname and its length.
pub fn validate_hostname(hostname: &String) -> (r: Result<(), ReaderError>)
    ensures
        r is Ok <==> byte_len(hostname@) == HOSTNAME_LENGTH,
        r matches Err(e) ==> e.kind@ == ReaderErrorKindView::IncorrectHostname(hostname@)
            && e.message@ == "This should be exactly 12 characters, but was "@ + nat_decimal(
            byte_len(hostname@),
        ),
{
    let len = hostname.as_str().as_bytes().len();
    if len != HOSTNAME_LENGTH {
        let mut message = String::from_str("This should be exactly 12 characters, but was ");
        message.append(u64_to_decimal(len as u64).as_str());
        return Err(
            ReaderError { kind: ReaderErrorKind::IncorrectHostname(hostname.clone()), message },
        );
    }
    Ok(())
}

/// The link-local IPv4 address that a reader takes when its hostname cannot
/// be resolved: 169.254 followed by the last two bytes of its MAC address,
/// read as hexadecimal from bytes 8..10 and 10..12 of the hostname.
pub open spec fn link_local_address(bytes: Seq<u8>) -> Option<Seq<u8>> {
    match (
        parse_hex_u8_spec(bytes.subrange(8, 10)),
        parse_hex_u8_spec(bytes.subrange(10, 12)),
    ) {
        (Some(third), Some(fourth)) => Some(seq![169u8, 254u8, third, fourth]),
        _ => None,
    }
}

/// Converts the hostname to the reader's link-local IPv4 address (see
/// [`link_local_address`]). The hostname must be at least twelve bytes long
/// with character boundaries at bytes 8, 10 and 12.
pub fn hostname_as_ip(hostname: &str) -> (r: Result<[u8; 4], ReaderError>)
    requires
        hostname.spec_bytes().len() >= 12,
        is_char_boundary(hostname.spec_bytes(), 8),
        is_char_boundary(hostname.spec_bytes(), 10),
        is_char_boundary(hostname.spec_bytes(), 12),
    ensures
        r matches Ok(ip) ==> link_local_address(hostname.spec_bytes()) == Some(ip@),
        r is Err <==> link_local_address(hostname.spec_bytes()) is None,
        r matches Err(e) ==> e.kind@ == ReaderErrorKindView::IncorrectHostname(hostname@)
            && e.message@ == "Could not convert mac address to IP"@,
{
    let bytes = hostname.as_bytes();
    let third = parse_hex_u8(&bytes[8..10]);
    let fourth = parse_hex_u8(&bytes[10..12]);
    match (third, fourth) {
        (Some(a), Some(b)) => {
            let ip: [u8; 4] = [169u8, 254u8, a, b];
            assert(ip@ =~= seq![169u8, 254u8, a, b]);
            Ok(ip)
        },
        _ => Err(
            ReaderError {
                kind: ReaderErrorKind::IncorrectHostname(String::from_str(hostname)),
                message: String::from_str("Could not convert mac address to IP"),
            },
        ),
    }
}

/// A message from the reader, as far as the library looks into it.
pub enum ReaderMessage {
    /// A report of the tags that the antennas saw.
    RoAccessReport(Vec<TagReport>),
    /// The reader checks that the connection is alive.
    Keepalive,
    /// Any other message; it is ignored.
    Other,
}

/// What has to be sent back to the reader for a message.
#[derive(Debug, Clone, Copy, PartialEq, Eq, Structural)]
pub enum MessageResponse {
    Nothing,
    KeepaliveAck,
}

/// The readings of a report that pass validation, in order.
pub open spec fn accepted_readings(reports: Seq<TagReport>) -> Seq<TagView>
    decreases reports.len(),
{
    if reports.len() == 0 {
        Seq::empty()
    } else {
        accepted_readings(reports.drop_last()) + match report_outcome(reports.last()) {
            Ok(t) => seq![t],
            Err(_) => Seq::empty(),
        }
    }
}

/// What a single report contributes: its own reading when it passes
/// validation, nothing when it does not.
pub open spec fn report_reading(r: TagReport) -> Seq<TagView> {
    match report_outcome(r) {
        Ok(t) => seq![t],
        Err(_) => Seq::empty(),
    }
}

/// Each report contributes exactly its own reading, whatever reports came
/// before it: appending a report appends its reading when it passes
/// validation and nothing otherwise, and the readings of two runs of reports
/// are the readings of the first followed by those of the second.
pub proof fn lemma_reports_contribute_independently(a: Seq<TagReport>, b: Seq<TagReport>, r: TagReport)
    ensures
        accepted_readings(a.push(r)) == accepted_readings(a) + report_reading(r),
        accepted_readings(seq![r]) == report_reading(r),
        accepted_readings(a + b) == accepted_readings(a) + accepted_readings(b),
        accepted_readings(a).len() <= a.len(),
    decreases b.len(),
{
    assert(a.push(r).drop_last() =~= a);
    assert(seq![r].drop_last() =~= Seq::<TagReport>::empty());
    assert(seq![r].last() == r);
    assert(accepted_readings(Seq::<TagReport>::empty()) =~= Seq::<TagView>::empty());
    assert(Seq::<TagView>::empty() + report_reading(r) =~= report_reading(r));
    assert(accepted_readings(seq![r]) == accepted_readings(seq![r].drop_last()) + report_reading(
        seq![r].last(),
    ));
    lemma_accepted_len(a);
    if b.len() == 0 {
        assert(a + b =~= a);
        assert(accepted_readings(a) + accepted_readings(b) =~= accepted_readings(a));
    } else {
        let b0 = b.drop_last();
        lemma_reports_contribute_independently(a, b0, r);
        assert((a + b).drop_last() =~= a + b0);
        assert((a + b).last() == b.last());
        assert(accepted_readings(a + b) =~= accepted_readings(a) + accepted_readings(b));
    }
}

proof fn lemma_accepted_len(a: Seq<TagReport>)
    ensures
        accepted_readings(a).len() <= a.len(),
    decreases a.len(),
{
    if a.len() > 0 {
        lemma_accepted_len(a.drop_last());
    }
}

/// Whether every report names its antenna and its signal strength.
pub open spec fn reports_complete(reports: Seq<TagReport>) -> bool {
    forall|i: int| 0 <= i < reports.len() ==> (#[trigger] reports[i]).antenna_id is Some
        && reports[i].peak_rssi is Some
}

/// Handles one message of the reader: the valid readings of a report are
/// appended to `tags` (the others are dropped), a keepalive asks for an
/// acknowledgement, anything else is ignored.
pub fn handle_new_message(message: ReaderMessage, tags: &mut Vec<Tag>) -> (r: MessageResponse)
    requires
        message matches ReaderMessage::RoAccessReport(reports) ==> reports_complete(reports@),
    ensures
        match message {
            ReaderMessage::RoAccessReport(reports) => views(final(tags)@) == views(old(tags)@)
                + accepted_readings(reports@) && r == MessageResponse::Nothing,
            ReaderMessage::Keepalive => final(tags)@ == old(tags)@ && r
                == MessageResponse::KeepaliveAck,
            ReaderMessage::Other => final(tags)@ == old(tags)@ && r == MessageResponse::Nothing,
        },
{
    match message {
        ReaderMessage::RoAccessReport(reports) => {
            let ghost start = views(tags@);
            let mut i: usize = 0;
            assert(reports@.take(0) =~= Seq::<TagReport>::empty());
            assert(start + accepted_readings(Seq::<TagReport>::empty()) =~= start);
            while i < reports.len()
                invariant
                    i <= reports@.len(),
                    reports_complete(reports@),
                    views(tags@) == start + accepted_readings(reports@.take(i as int)),
                decreases reports@.len() - i,
            {
                let report = reports[i].clone();
                assert(reports@.take(i + 1).drop_last() =~= reports@.take(i as int));
                assert(reports@.take(i + 1).last() == reports@[i as int]);
                let ghost before = tags@;
                match Tag::from_report_data(report) {
                    Ok(tag) => {
                        tags.push(tag);
                        assert(views(tags@) =~= views(before).push(tag@));
                    },
                    Err(_) => {},
                }
                i = i + 1;
            }
            assert(reports@.take(reports@.len() as int) =~= reports@);
            MessageResponse::Nothing
        },
        ReaderMessage::Keepalive => MessageResponse::KeepaliveAck,
        ReaderMessage::Other => MessageResponse::Nothing,
    }
}

/// What the reading loop does after a round.
#[derive(Debug, Clone, Copy, PartialEq, Eq, Structural)]
pub struct LoopDecision {
    /// Send the current readings to the view.
    pub emit_update: bool,
    /// The reader has been silent too long: report the lost connection and
    /// stop.
    pub connection_lost: bool,
}

/// The refresh interval, in nanoseconds.
pub open spec fn update_interval_nanos() -> int {
    REFRESH_INTERVAL * 1_000_000
}

/// How long the reader may stay silent, in nanoseconds: ten refresh
/// intervals.
pub open spec fn alive_interval_nanos() -> int {
    REFRESH_INTERVAL * 10 * 1_000_000
}

/// Decides a round of the reading loop, from the time since the view was
/// last refreshed and since the reader was last heard from (both taken after
/// the round's message, if any, was handled).
pub fn reader_loop_step(nanos_since_update: u128, nanos_since_alive: u128) -> (r: LoopDecision)
    ensures
        r.emit_update == (nanos_since_update > update_interval_nanos()),
        r.connection_lost == (nanos_since_alive > alive_interval_nanos()),
{
    let update_interval: u128 = REFRESH_INTERVAL as u128 * 1_000_000;
    let alive_interval: u128 = REFRESH_INTERVAL as u128 * 10 * 1_000_000;
    LoopDecision {
        emit_update: nanos_since_update > update_interval,
        connection_lost: nanos_since_alive > alive_interval,
    }
}

/// The keepalive period that the reader is configured with: half the
/// refresh interval.
pub fn keepalive_period() -> (r: u32)
    ensures
        r == REFRESH_INTERVAL / 2,
{
    REFRESH_INTERVAL / 2
}


/// The bytes of a text of ASCII characters.
pub open spec fn ascii_bytes(s: Seq<char>) -> Seq<u8> {
    s.map_values(|c: char| c as u8)
}

proof fn lemma_hex_digit_roundtrip(d: nat)
    requires
        d < 16,
    ensures
        is_hex_digit(hex_digit_upper(d) as u8),
        hex_digit_value(hex_digit_upper(d) as u8) == d,
{
}

/// A hostname that ends in two MAC bytes written as upper-case hexadecimal
/// (as the reader's EPCs and hostnames are) converts to the link-local
/// address with exactly those bytes.
pub proof fn lemma_link_local_from_mac(prefix: Seq<u8>, third: u8, fourth: u8)
    requires
        prefix.len() == 8,
    ensures
        link_local_address(
            prefix + ascii_bytes(byte_hex_upper(third)) + ascii_bytes(byte_hex_upper(fourth)),
        ) == Some(seq![169u8, 254u8, third, fourth]),
{
    let hostname = prefix + ascii_bytes(byte_hex_upper(third)) + ascii_bytes(
        byte_hex_upper(fourth),
    );
    assert forall|b: u8| #[trigger] parse_hex_u8_spec(ascii_bytes(byte_hex_upper(b))) == Some(b) by {
        let h = ascii_bytes(byte_hex_upper(b));
        lemma_hex_digit_roundtrip((b / 16) as nat);
        lemma_hex_digit_roundtrip((b % 16) as nat);
        assert(h.len() == 2);
        assert(h[0] != 43u8);
        assert(after_plus(h) == h);
        assert(all_hex_digits(h));
        assert(h.drop_last().drop_last() =~= Seq::<u8>::empty());
        assert(h.drop_last().last() == h[0]);
        assert(h.last() == h[1]);
        assert(hex_value(h.drop_last().drop_last()) == 0);
        assert(hex_value(h.drop_last()) == hex_digit_value(h[0]));
        assert(hex_value(h) == hex_digit_value(h[0]) * 16 + hex_digit_value(h[1]));
        assert(hex_value(h) == (b / 16) * 16 + b % 16);
    }
    assert(hostname.subrange(8, 10) =~= ascii_bytes(byte_hex_upper(third)));
    assert(hostname.subrange(10, 12) =~= ascii_bytes(byte_hex_upper(fourth)));
}


/// The class that runs the vendor's reader program.
pub const MAIN_JAVA_CLASS: &'static str = "reader.PrintRFIDReader.PrintRFIDTags";

/// The arguments of the `java` command that runs the vendor's reader
/// program: the class path joins the vendor's jar and the reader's jar (with
/// `;` on Windows, `:` elsewhere); outside Windows the native library path
/// comes first.
pub open spec fn reader_command_arg_texts(
    windows: bool,
    vendor_jar: Seq<char>,
    reader_jar: Seq<char>,
    library_path: Seq<char>,
) -> Seq<Seq<char>> {
    if windows {
        seq!["-cp"@, vendor_jar + ";"@ + reader_jar, MAIN_JAVA_CLASS@]
    } else {
        seq![
            "-Djava.library.path='"@ + library_path + "'"@,
            "-cp"@,
            vendor_jar + ":"@ + reader_jar,
            MAIN_JAVA_CLASS@,
        ]
    }
}

/// The arguments of the `java` command that runs the vendor's reader
/// program (see [`reader_command_arg_texts`]).
pub fn reader_command_args(windows: bool, vendor_jar: &str, reader_jar: &str, library_path: &str) -> (r:
    Vec<String>)
    ensures
        r@.map_values(|a: String| a@) == reader_command_arg_texts(
            windows,
            vendor_jar@,
            reader_jar@,
            library_path@,
        ),
{
    let mut class_path = String::from_str(vendor_jar);
    if windows {
        class_path.append(";");
    } else {
        class_path.append(":");
    }
    class_path.append(reader_jar);
    let mut args: Vec<String> = Vec::new();
    if !windows {
        let mut library = String::from_str("-Djava.library.path='");
        library.append(library_path);
        library.append("'");
        args.push(library);
    }
    args.push(String::from_str("-cp"));
    args.push(class_path);
    args.push(String::from_str(MAIN_JAVA_CLASS));
    assert(args@.map_values(|a: String| a@) =~= reader_command_arg_texts(
        windows,
        vendor_jar@,
        reader_jar@,
        library_path@,
    ));
    args
}

} // verus!
