//! The timeline-event model and the two renderers: strict JSON (any
//! undeserializable event fails the whole export) and lenient text (such an
//! event becomes a fixed skip-placeholder line).

use vstd::prelude::*;
use crate::text::str_eq;
use crate::user::{label_of, sender_label};

verus! {

/// The typed content of a room message, reduced to what the text renderer
/// reads: the textual fallback body per kind, plus the extra fields some
/// kinds carry.
pub enum MessageContent {
    Audio { body: String },
    Emote { body: String },
    File { body: String },
    Image { body: String },
    Location { geo_uri: String, body: String },
    Notice { body: String },
    ServerNotice { body: String },
    Text { body: String },
    Video { body: String },
    VerificationRequest { to: String },
    Unrecognized,
}

/// What kind of timeline event a deserialized record is.
pub enum EventKind {
    Message { content: MessageContent },
    RedactedMessage,
    OtherMessageLike,
    State,
}

/// A deserialized event's fields, as the text renderer reads them.
pub struct EventDetails {
    pub timestamp_millis: i64,
    pub sender: String,
    pub kind: EventKind,
}

/// One fetched timeline event: its native JSON serialization (absent when
/// that serialization failed) and its typed deserialization (absent when the
/// event does not deserialize, as malformed redactions do not).
pub struct EventRecord {
    pub json: Option<String>,
    pub parsed: Option<EventDetails>,
}

/// Why a rendering failed.
#[derive(Debug)]
pub enum ExportError {
    /// An event could not be serialized to its native JSON form; the JSON
    /// export demands full fidelity and fails as a whole.
    DeserializationFailure,
}

/// Timestamps at least this large format successfully.
pub const TIMESTAMP_MIN: i64 = -8_000_000_000_000_000;

/// Timestamps at most this large format successfully.
pub const TIMESTAMP_MAX: i64 = 8_000_000_000_000_000;

/// The ISO-8601 millisecond-precision UTC rendering of a millisecond UNIX
/// timestamp, as the time library computes it.
pub uninterp spec fn rfc3339_millis_utc(timestamp_millis: int) -> Seq<char>;

/// Relies on chrono's `DateTime::<Utc>::from_timestamp_millis` and
/// `to_rfc3339_opts(SecondsFormat::Millis, true)`: the rendering depends on
/// the timestamp alone, and chrono documents failure only for timestamps more
/// than about 262,000 years from the epoch, far beyond the stated bounds.
#[verifier::external_body]
fn format_timestamp_rfc3339_millis(timestamp_millis: i64) -> (r: Option<String>)
    ensures
        r matches Some(s) ==> s@ == rfc3339_millis_utc(timestamp_millis as int),
        TIMESTAMP_MIN <= timestamp_millis <= TIMESTAMP_MAX ==> r is Some,
{
    chrono::DateTime::from_timestamp_millis(timestamp_millis).map(
        |dt| dt.to_rfc3339_opts(chrono::SecondsFormat::Millis, true),
    )
}

/// The memoized sender-label directory for one export: each account
/// identifier looked up at most once, paired with its resolved display name.
pub struct SenderDirectory {
    pub entries: Vec<(String, Option<String>)>,
}

/// The display name recorded for `user_id`: `None` when the identifier is not
/// in the directory, `Some(resolved)` when it is.
pub open spec fn directory_lookup(
    entries: Seq<(String, Option<String>)>,
    user_id: Seq<char>,
) -> Option<Option<Seq<char>>>
    decreases entries.len(),
{
    if entries.len() == 0 {
        None
    } else if entries[0].0@ == user_id {
        Some(
            match entries[0].1 {
                Some(d) => Some(d@),
                None => None,
            },
        )
    } else {
        directory_lookup(entries.drop_first(), user_id)
    }
}

/// The label the text renderer writes for `user_id` under this directory.
pub open spec fn directory_label(
    entries: Seq<(String, Option<String>)>,
    user_id: Seq<char>,
) -> Seq<char> {
    match directory_lookup(entries, user_id) {
        Some(dn) => label_of(user_id, dn),
        None => label_of(user_id, None),
    }
}

impl SenderDirectory {
    /// A directory with nothing resolved yet.
    pub fn new() -> (r: Self)
        ensures
            r.entries@.len() == 0,
    {
        SenderDirectory { entries: Vec::new() }
    }

    /// Records the resolved display name of one account identifier.
    pub fn insert(&mut self, user_id: String, display_name: Option<String>)
        ensures
            final(self).entries@ == old(self).entries@.push((user_id, display_name)),
    {
        self.entries.push((user_id, display_name));
    }

    /// Renders the label for `user_id`: the recorded display name with the
    /// identifier in parentheses, or the bare identifier.
    #[verifier::loop_isolation(false)]
    pub fn label_for(&self, user_id: &str) -> (r: String)
        ensures
            r@ == directory_label(self.entries@, user_id@),
    {
        let n = self.entries.len();
        let mut i: usize = 0;
        proof {
            assert(self.entries@.skip(0) =~= self.entries@);
        }
        while i < n
            invariant
                i <= n,
                n == self.entries@.len(),
                directory_lookup(self.entries@, user_id@) == directory_lookup(
                    self.entries@.skip(i as int),
                    user_id@,
                ),
            decreases n - i,
        {
            proof {
                assert(self.entries@.skip(i as int).drop_first() =~= self.entries@.skip(
                    i as int + 1,
                ));
                assert(self.entries@.skip(i as int)[0] == self.entries@[i as int]);
            }
            let entry = &self.entries[i];
            if str_eq(entry.0.as_str(), user_id) {
                return sender_label(user_id, &entry.1);
            }
            i += 1;
        }
        proof {
            assert(self.entries@.skip(n as int) =~= Seq::<(String, Option<String>)>::empty());
        }
        let none: Option<String> = None;
        sender_label(user_id, &none)
    }
}

/// Whether any string in `v` holds exactly the characters `s`.
pub open spec fn contains_view(v: Seq<String>, s: Seq<char>) -> bool {
    exists|k: int| 0 <= k < v.len() && v[k]@ == s
}

/// Whether the event mentions `s` as its sender or as the recipient of a
/// verification request.
pub open spec fn event_needs(e: EventRecord, s: Seq<char>) -> bool {
    match e.parsed {
        Some(d) => d.sender@ == s || (match d.kind {
            EventKind::Message { content: MessageContent::VerificationRequest { to } } => to@ == s,
            _ => false,
        }),
        None => false,
    }
}

/// Whether some event in the timeline mentions `s`.
pub open spec fn needed_id(events: Seq<EventRecord>, s: Seq<char>) -> bool {
    exists|e: int| 0 <= e < events.len() && event_needs(events[e], s)
}

/// The distinct account identifiers the text renderer will label: each
/// event's sender and each verification request's recipient, in order of
/// first occurrence and without repetition — so one membership lookup per
/// identifier suffices.
#[verifier::loop_isolation(false)]
pub fn collect_sender_ids(events: &Vec<EventRecord>) -> (r: Vec<String>)
    ensures
        forall|p: int, q: int| #![trigger r@[p], r@[q]] 0 <= p < q < r@.len() ==> r@[p]@ != r@[q]@,
        forall|e: int| #![trigger events@[e]]
            0 <= e < events@.len() ==> (events@[e].parsed matches Some(d) ==> contains_view(
                r@,
                d.sender@,
            )),
        forall|e: int| #![trigger events@[e]]
            0 <= e < events@.len() ==> (events@[e].parsed matches Some(d) ==> (d.kind matches
                EventKind::Message {
                content: MessageContent::VerificationRequest { to },
            } ==> contains_view(r@, to@))),
        forall|p: int| 0 <= p < r@.len() ==> needed_id(events@, r@[p]@),
{
    let n = events.len();
    let mut out: Vec<String> = Vec::new();
    let mut i: usize = 0;
    while i < n
        invariant
            i <= n,
            n == events@.len(),
            forall|p: int, q: int| #![trigger out@[p], out@[q]] 0 <= p < q < out@.len() ==> out@[p]@ != out@[q]@,
            forall|e: int| #![trigger events@[e]]
                0 <= e < i ==> (events@[e].parsed matches Some(d) ==> contains_view(
                    out@,
                    d.sender@,
                )),
            forall|e: int| #![trigger events@[e]]
                0 <= e < i ==> (events@[e].parsed matches Some(d) ==> (d.kind matches
                    EventKind::Message {
                    content: MessageContent::VerificationRequest { to },
                } ==> contains_view(out@, to@))),
            forall|p: int| 0 <= p < out@.len() ==> needed_id(events@, out@[p]@),
        decreases n - i,
    {
        match &events[i].parsed {
            Some(details) => {
                let ghost before = out@;
                if !contains_exec(&out, details.sender.as_str()) {
                    out.push(details.sender.clone());
                    proof {
                        lemma_push_keeps_contains(before, details.sender);
                        assert(event_needs(events@[i as int], details.sender@));
                    }
                }
                assert(contains_view(out@, details.sender@));
                let ghost mid = out@;
                match &details.kind {
                    EventKind::Message {
                        content: MessageContent::VerificationRequest { to },
                    } => {
                        if !contains_exec(&out, to.as_str()) {
                            out.push(to.clone());
                            proof {
                                lemma_push_keeps_contains(mid, *to);
                                assert(event_needs(events@[i as int], to@));
                            }
                        }
                        assert(contains_view(out@, to@));
                    },
                    _ => {},
                }
                proof {
                    lemma_grow_keeps_contains(before, out@);
                    lemma_grow_keeps_contains(mid, out@);
                }
            },
            None => {},
        }
        i += 1;
    }
    out
}

/// Whether any string in `v` holds exactly the characters of `s`.
fn contains_exec(v: &Vec<String>, s: &str) -> (r: bool)
    ensures
        r == contains_view(v@, s@),
{
    let n = v.len();
    let mut k: usize = 0;
    while k < n
        invariant
            k <= n,
            n == v@.len(),
            forall|m: int| 0 <= m < k ==> v@[m]@ != s@,
        decreases n - k,
    {
        if str_eq(v[k].as_str(), s) {
            return true;
        }
        k += 1;
    }
    false
}

/// Pushing an element leaves it and everything already present findable.
proof fn lemma_push_keeps_contains(v: Seq<String>, x: String)
    ensures
        contains_view(v.push(x), x@),
        forall|s: Seq<char>| #[trigger] contains_view(v, s) ==> contains_view(v.push(x), s),
{
    assert(v.push(x)[v.len() as int]@ == x@);
    assert forall|s: Seq<char>| #[trigger] contains_view(v, s) implies contains_view(
        v.push(x),
        s,
    ) by {
        let k = choose|k: int| 0 <= k < v.len() && v[k]@ == s;
        assert(v.push(x)[k]@ == s);
    }
}

/// Whether every event still carries its native JSON serialization.
pub open spec fn all_json_present(events: Seq<EventRecord>) -> bool {
    forall|i: int| 0 <= i < events.len() ==> events[i].json is Some
}

/// The JSON serializations of the events, in arrival order.
pub open spec fn json_views(events: Seq<EventRecord>) -> Seq<Seq<char>> {
    events.map_values(|e: EventRecord| e.json.unwrap()@)
}

/// The items joined by a comma and line break.
pub open spec fn json_join(items: Seq<Seq<char>>) -> Seq<char>
    decreases items.len(),
{
    if items.len() == 0 {
        Seq::empty()
    } else if items.len() == 1 {
        items[0]
    } else {
        items[0] + ",\n"@ + json_join(items.drop_first())
    }
}

/// One top-level JSON list holding the items in order.
pub open spec fn json_array(items: Seq<Seq<char>>) -> Seq<char> {
    if items.len() == 0 {
        "[]"@
    } else {
        "[\n"@ + json_join(items) + "\n]"@
    }
}

/// Joining after an appended item equals joining, a separator, and the item.
proof fn lemma_json_join_push(items: Seq<Seq<char>>, x: Seq<char>)
    requires
        items.len() > 0,
    ensures
        json_join(items.push(x)) == json_join(items) + ",\n"@ + x,
    decreases items.len(),
{
    if items.len() == 1 {
        assert(items.push(x).drop_first() =~= seq![x]);
        assert(items.push(x)[0] == items[0]);
        assert(seq![x].len() == 1 && seq![x][0] == x);
        assert(json_join(seq![x]) == x);
        assert(json_join(items.push(x)) == items[0] + ",\n"@ + x);
        assert(json_join(items) == items[0]);
    } else {
        assert(items.push(x).drop_first() =~= items.drop_first().push(x));
        assert(items.push(x)[0] == items[0]);
        lemma_json_join_push(items.drop_first(), x);
        assert(json_join(items.push(x)) == items[0] + ",\n"@ + (json_join(items.drop_first())
            + ",\n"@ + x));
        assert(items[0] + ",\n"@ + (json_join(items.drop_first()) + ",\n"@ + x) =~= (items[0]
            + ",\n"@ + json_join(items.drop_first())) + ",\n"@ + x);
    }
}

/// Renders the fetched events as one JSON list of their native forms, in
/// arrival order; one event without a native form fails the whole rendering.
#[verifier::loop_isolation(false)]
pub fn messages_to_json(events: &Vec<EventRecord>) -> (r: Result<String, ExportError>)
    ensures
        r matches Ok(s) ==> all_json_present(events@) && s@ == json_array(json_views(events@)),
        r matches Err(e) ==> !all_json_present(events@) && e is DeserializationFailure,
{
    let n = events.len();
    let mut i: usize = 0;
    while i < n
        invariant
            i <= n,
            n == events@.len(),
            forall|k: int| 0 <= k < i ==> events@[k].json is Some,
        decreases n - i,
    {
        if events[i].json.is_none() {
            return Err(ExportError::DeserializationFailure);
        }
        i += 1;
    }
    let ghost items = json_views(events@);
    proof {
        assert(items.len() == n);
    }
    if n == 0 {
        return Ok(String::from_str("[]"));
    }
    let mut out = String::from_str("[\n");
    let mut i: usize = 0;
    while i < n
        invariant
            i <= n,
            n == events@.len(),
            all_json_present(events@),
            items == json_views(events@),
            items.len() == n,
            i == 0 ==> out@ == "[\n"@,
            i > 0 ==> out@ == "[\n"@ + json_join(items.take(i as int)),
        decreases n - i,
    {
        if i > 0 {
            out.append(",\n");
        }
        let piece = match &events[i].json {
            Some(s) => s,
            None => {
                proof {
                    assert(false);
                }
                return Err(ExportError::DeserializationFailure);
            },
        };
        out.append(piece.as_str());
        proof {
            assert(items[i as int] == piece@);
            if i == 0 {
                assert(items.take(1) =~= seq![items[0]]);
                assert(out@ =~= "[\n"@ + json_join(items.take(1)));
            } else {
                lemma_json_join_push(items.take(i as int), items[i as int]);
                assert(items.take(i as int).push(items[i as int]) =~= items.take(i as int + 1));
                assert(out@ =~= "[\n"@ + json_join(items.take(i as int + 1)));
            }
        }
        i += 1;
    }
    out.append("\n]");
    proof {
        assert(items.take(n as int) =~= items);
        assert(out@ =~= json_array(items));
    }
    Ok(out)
}

/// The timestamp-and-sender prefix of one text-export line.
pub open spec fn line_prefix(d: EventDetails, entries: Seq<(String, Option<String>)>) -> Seq<char> {
    "["@ + rfc3339_millis_utc(d.timestamp_millis as int) + "] "@ + directory_label(
        entries,
        d.sender@,
    ) + ":"@
}

/// The one text-export line an event becomes: the fixed skip placeholder for
/// an event that did not deserialize, else a prefixed human-readable
/// rendering per content kind.
pub open spec fn txt_line(e: EventRecord, entries: Seq<(String, Option<String>)>) -> Seq<char> {
    match e.parsed {
        None => "[Message skipped due to deserialization failure]"@,
        Some(d) => match d.kind {
            EventKind::Message { content } => match content {
                MessageContent::Audio { body } => line_prefix(d, entries)
                    + " [Audio; textual representation: "@ + body@ + "]"@,
                MessageContent::Emote { body } => line_prefix(d, entries) + " *"@ + body@ + "*"@,
                MessageContent::File { body } => line_prefix(d, entries)
                    + " [File; textual representation: "@ + body@ + "]"@,
                MessageContent::Image { body } => line_prefix(d, entries)
                    + " [Image; textual representation: "@ + body@ + "]"@,
                MessageContent::Location { geo_uri, body } => line_prefix(d, entries)
                    + " [Location; geo URI: "@ + geo_uri@ + "; textual representation: "@ + body@
                    + "]"@,
                MessageContent::Notice { body } => line_prefix(d, entries) + " ["@ + body@ + "]"@,
                MessageContent::ServerNotice { body } => line_prefix(d, entries)
                    + " [Server notice: "@ + body@ + "]"@,
                MessageContent::Text { body } => line_prefix(d, entries) + " "@ + body@,
                MessageContent::Video { body } => line_prefix(d, entries)
                    + " [Video; textual representation: "@ + body@ + "]"@,
                MessageContent::VerificationRequest { to } => line_prefix(d, entries)
                    + " [Verification request sent to "@ + directory_label(entries, to@) + "]"@,
                MessageContent::Unrecognized => "[Message of unrecognized type]"@,
            },
            EventKind::RedactedMessage => line_prefix(d, entries) + " [Redacted message]"@,
            EventKind::OtherMessageLike => "[Placeholder message-like]"@,
            EventKind::State => "[Placeholder state-like]"@,
        },
    }
}

/// The whole text export: one line per event, in arrival order, each closed
/// by a line break.
pub open spec fn txt_document(
    events: Seq<EventRecord>,
    entries: Seq<(String, Option<String>)>,
) -> Seq<char>
    decreases events.len(),
{
    if events.len() == 0 {
        Seq::empty()
    } else {
        txt_line(events[0], entries) + "\n"@ + txt_document(events.drop_first(), entries)
    }
}

/// Renders the prefix of one line: the bracketed ISO-8601 UTC timestamp and
/// the sender's label.
fn render_prefix(d: &EventDetails, directory: &SenderDirectory) -> (r: String)
    requires
        TIMESTAMP_MIN <= d.timestamp_millis <= TIMESTAMP_MAX,
    ensures
        r@ == line_prefix(*d, directory.entries@),
{
    let stamp = format_timestamp_rfc3339_millis(d.timestamp_millis).unwrap();
    let label = directory.label_for(d.sender.as_str());
    let r = String::from_str("[").concat(stamp.as_str()).concat("] ").concat(label.as_str())
        .concat(":");
    proof {
        assert(r@ =~= line_prefix(*d, directory.entries@));
    }
    r
}

/// Renders the fetched events as a text document, one line per event in
/// arrival order, labelling senders through the given directory; an event
/// that did not deserialize becomes the fixed skip-placeholder line.
#[verifier::loop_isolation(false)]
pub fn messages_to_txt(events: &Vec<EventRecord>, directory: &SenderDirectory) -> (r: String)
    requires
        forall|i: int|
            0 <= i < events@.len() ==> (#[trigger] events@[i].parsed matches Some(d)
                ==> TIMESTAMP_MIN <= d.timestamp_millis <= TIMESTAMP_MAX),
    ensures
        r@ == txt_document(events@, directory.entries@),
{
    let ghost entries = directory.entries@;
    let n = events.len();
    let mut out = String::new();
    let mut i: usize = 0;
    proof {
        assert(events@.skip(0) =~= events@);
        assert(out@ + txt_document(events@, entries) =~= txt_document(events@, entries));
    }
    while i < n
        invariant
            i <= n,
            n == events@.len(),
            entries == directory.entries@,
            out@ + txt_document(events@.skip(i as int), entries) == txt_document(events@, entries),
        decreases n - i,
    {
        proof {
            assert(events@.skip(i as int)[0] == events@[i as int]);
            assert(events@.skip(i as int).drop_first() =~= events@.skip(i as int + 1));
        }
        let ghost out_before = out@;
        let ghost this_line = txt_line(events@[i as int], entries);
        let event = &events[i];
        match &event.parsed {
            None => {
                out.append("[Message skipped due to deserialization failure]");
            },
            Some(details) => {
                match &details.kind {
                    EventKind::Message { content } => match content {
                        MessageContent::Audio { body } => {
                            let line = render_prefix(details, directory).concat(
                                " [Audio; textual representation: ",
                            ).concat(body.as_str()).concat("]");
                            out.append(line.as_str());
                        },
                        MessageContent::Emote { body } => {
                            let line = render_prefix(details, directory).concat(" *").concat(
                                body.as_str(),
                            ).concat("*");
                            out.append(line.as_str());
                        },
                        MessageContent::File { body } => {
                            let line = render_prefix(details, directory).concat(
                                " [File; textual representation: ",
                            ).concat(body.as_str()).concat("]");
                            out.append(line.as_str());
                        },
                        MessageContent::Image { body } => {
                            let line = render_prefix(details, directory).concat(
                                " [Image; textual representation: ",
                            ).concat(body.as_str()).concat("]");
                            out.append(line.as_str());
                        },
                        MessageContent::Location { geo_uri, body } => {
                            let line = render_prefix(details, directory).concat(
                                " [Location; geo URI: ",
                            ).concat(geo_uri.as_str()).concat(
                                "; textual representation: ",
                            ).concat(body.as_str()).concat("]");
                            out.append(line.as_str());
                        },
                        MessageContent::Notice { body } => {
                            let line = render_prefix(details, directory).concat(" [").concat(
                                body.as_str(),
                            ).concat("]");
                            out.append(line.as_str());
                        },
                        MessageContent::ServerNotice { body } => {
                            let line = render_prefix(details, directory).concat(
                                " [Server notice: ",
                            ).concat(body.as_str()).concat("]");
                            out.append(line.as_str());
                        },
                        MessageContent::Text { body } => {
                            let line = render_prefix(details, directory).concat(" ").concat(
                                body.as_str(),
                            );
                            out.append(line.as_str());
                        },
                        MessageContent::Video { body } => {
                            let line = render_prefix(details, directory).concat(
                                " [Video; textual representation: ",
                            ).concat(body.as_str()).concat("]");
                            out.append(line.as_str());
                        },
                        MessageContent::VerificationRequest { to } => {
                            let target = directory.label_for(to.as_str());
                            let line = render_prefix(details, directory).concat(
                                " [Verification request sent to ",
                            ).concat(target.as_str()).concat("]");
                            out.append(line.as_str());
                        },
                        MessageContent::Unrecognized => {
                            out.append("[Message of unrecognized type]");
                        },
                    },
                    EventKind::RedactedMessage => {
                        let line = render_prefix(details, directory).concat(" [Redacted message]");
                        out.append(line.as_str());
                    },
                    EventKind::OtherMessageLike => {
                        out.append("[Placeholder message-like]");
                    },
                    EventKind::State => {
                        out.append("[Placeholder state-like]");
                    },
                }
            },
        }
        proof {
            assert(out@ =~= out_before + this_line);
        }
        out.append("\n");
        proof {
            assert(out@ + txt_document(events@.skip(i as int + 1), entries) =~= txt_document(
                events@,
                entries,
            ));
        }
        i += 1;
    }
    proof {
        assert(events@.skip(n as int) =~= Seq::<EventRecord>::empty());
        assert(out@ =~= txt_document(events@, entries));
    }
    out
}

/// A sequence that extends another keeps everything the shorter one holds.
proof fn lemma_grow_keeps_contains(shorter: Seq<String>, longer: Seq<String>)
    requires
        shorter.len() <= longer.len(),
        forall|k: int| 0 <= k < shorter.len() ==> longer[k] == shorter[k],
    ensures
        forall|s: Seq<char>| #[trigger] contains_view(shorter, s) ==> contains_view(longer, s),
{
    assert forall|s: Seq<char>| #[trigger] contains_view(shorter, s) implies contains_view(longer, s) by {
        let k = choose|k: int| 0 <= k < shorter.len() && shorter[k]@ == s;
        assert(longer[k]@ == s);
    }
}

} // verus!
