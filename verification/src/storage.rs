//! Durable state: retained messages, stored sessions and their subscriptions.
//!
//! The broker describes each change as a `Command`; the process hands the
//! commands to whatever keeps the database. What is in the database comes back
//! as rows, from which the state at startup is built.

use vstd::prelude::*;
use crate::codec::{wire, Reader, Writer};
use crate::message::{Message, MessageView};
use crate::packet::{RetainHandling, TopicFilter, TopicFilterView};
use crate::text;
use crate::text::{clone_opt_bytes, clone_opt_string};
use crate::types::QoS;

verus! {

broadcast use {text::group_views, wire::group_tail};

/// A stored subscription of a session.
#[derive(Debug)]
pub struct SubRecord {
    pub filter: String,
    pub qos: QoS,
    pub no_local: bool,
    pub retain_as_published: bool,
    pub retain_handling: RetainHandling,
    pub subscription_identifier: Option<u32>,
}

/// What a stored subscription says.
pub struct SubRecordView {
    pub filter: Seq<char>,
    pub qos: QoS,
    pub no_local: bool,
    pub retain_as_published: bool,
    pub retain_handling: RetainHandling,
    pub subscription_identifier: Option<u32>,
}

impl View for SubRecord {
    type V = SubRecordView;

    open spec fn view(&self) -> SubRecordView {
        SubRecordView {
            filter: self.filter@,
            qos: self.qos,
            no_local: self.no_local,
            retain_as_published: self.retain_as_published,
            retain_handling: self.retain_handling,
            subscription_identifier: self.subscription_identifier,
        }
    }
}

impl SubRecord {
    /// The entry of a SUBSCRIBE that asks for this subscription.
    pub fn to_topic_filter(&self) -> (r: TopicFilter)
        ensures
            r@ == (TopicFilterView {
                filter: self@.filter,
                qos: self@.qos,
                no_local: self@.no_local,
                retain_as_published: self@.retain_as_published,
                retain_handling: self@.retain_handling,
            }),
    {
        TopicFilter {
            filter: self.filter.clone(),
            qos: self.qos,
            no_local: self.no_local,
            retain_as_published: self.retain_as_published,
            retain_handling: self.retain_handling,
        }
    }
}

/// A stored session with its subscriptions.
#[derive(Debug)]
pub struct SessionRecord {
    pub client_id: String,
    pub session_expiry_interval: u32,
    /// The authenticated identity that owns the session, if there is one.
    pub owner_identity: Option<String>,
    pub subscriptions: Vec<SubRecord>,
}

/// What a stored session says.
pub struct SessionRecordView {
    pub client_id: Seq<char>,
    pub session_expiry_interval: u32,
    pub owner_identity: Option<Seq<char>>,
    pub subscriptions: Seq<SubRecordView>,
}

impl View for SessionRecord {
    type V = SessionRecordView;

    open spec fn view(&self) -> SessionRecordView {
        SessionRecordView {
            client_id: self.client_id@,
            session_expiry_interval: self.session_expiry_interval,
            owner_identity: text::opt_view(self.owner_identity),
            subscriptions: text::views(self.subscriptions@),
        }
    }
}

/// The views of retained messages by their topics.
pub open spec fn retained_views(s: Seq<(String, Message)>) -> Seq<(Seq<char>, MessageView)> {
    Seq::new(s.len(), |i: int| (s[i].0@, s[i].1@))
}

/// Everything that is loaded when the broker starts.
#[derive(Debug)]
pub struct LoadedState {
    pub retained: Vec<(String, Message)>,
    pub sessions: Vec<SessionRecord>,
}

impl Default for LoadedState {
    fn default() -> (r: Self)
        ensures
            r.retained@.len() == 0,
            r.sessions@.len() == 0,
    {
        LoadedState { retained: Vec::new(), sessions: Vec::new() }
    }
}

/// A change to the durable state.
#[derive(Debug)]
pub enum Command {
    UpsertRetained { topic: String, message: Message },
    DeleteRetained { topic: String },
    UpsertSession { client_id: String, session_expiry: u32, owner_identity: Option<String> },
    DeleteSession { client_id: String },
    UpsertSubscription { client_id: String, sub: SubRecord },
    DeleteSubscription { client_id: String, filter: String },
    ClearSubscriptions { client_id: String },
}

/// What a change says.
pub enum CommandView {
    UpsertRetained { topic: Seq<char>, message: MessageView },
    DeleteRetained { topic: Seq<char> },
    UpsertSession {
        client_id: Seq<char>,
        session_expiry: u32,
        owner_identity: Option<Seq<char>>,
    },
    DeleteSession { client_id: Seq<char> },
    UpsertSubscription { client_id: Seq<char>, sub: SubRecordView },
    DeleteSubscription { client_id: Seq<char>, filter: Seq<char> },
    ClearSubscriptions { client_id: Seq<char> },
}

impl View for Command {
    type V = CommandView;

    open spec fn view(&self) -> CommandView {
        match self {
            Command::UpsertRetained { topic, message } => CommandView::UpsertRetained {
                topic: topic@,
                message: message@,
            },
            Command::DeleteRetained { topic } => CommandView::DeleteRetained { topic: topic@ },
            Command::UpsertSession { client_id, session_expiry, owner_identity } => {
                CommandView::UpsertSession {
                    client_id: client_id@,
                    session_expiry: *session_expiry,
                    owner_identity: text::opt_view(*owner_identity),
                }
            },
            Command::DeleteSession { client_id } => CommandView::DeleteSession {
                client_id: client_id@,
            },
            Command::UpsertSubscription { client_id, sub } => CommandView::UpsertSubscription {
                client_id: client_id@,
                sub: sub@,
            },
            Command::DeleteSubscription { client_id, filter } => {
                CommandView::DeleteSubscription { client_id: client_id@, filter: filter@ }
            },
            Command::ClearSubscriptions { client_id } => CommandView::ClearSubscriptions {
                client_id: client_id@,
            },
        }
    }
}

/// Who takes the commands.
#[derive(Debug, Clone, Copy, PartialEq, Eq, Structural)]
pub enum StorageMode {
    /// A writer; commands are kept until they are taken.
    Writer,
    /// Nobody: persistence is off and commands are discarded.
    Null,
    /// The writer is gone; commands are discarded.
    WriterLost,
}

/// The handle by which the broker persists state; the commands that are not
/// taken yet, in order.
pub struct Storage {
    mode: StorageMode,
    commands: Vec<Command>,
}

/// The state of a storage handle.
#[verifier::ext_equal]
pub struct StorageView {
    pub mode: StorageMode,
    pub commands: Seq<CommandView>,
}

impl View for Storage {
    type V = StorageView;

    closed spec fn view(&self) -> StorageView {
        StorageView { mode: self.mode, commands: text::views(self.commands@) }
    }
}

impl StorageView {
    /// The handle with one more command, unless nobody takes it.
    pub open spec fn sent(self, c: CommandView) -> StorageView {
        if self.mode is Writer {
            StorageView { commands: self.commands.push(c), ..self }
        } else {
            self
        }
    }
}

impl Storage {
    /// A handle whose commands a writer takes.
    pub fn new() -> (r: Storage)
        ensures
            r@ == (StorageView { mode: StorageMode::Writer, commands: Seq::empty() }),
    {
        Storage { mode: StorageMode::Writer, commands: Vec::new() }
    }

    /// A handle for running without persistence.
    pub fn null() -> (r: Storage)
        ensures
            r@ == (StorageView { mode: StorageMode::Null, commands: Seq::empty() }),
    {
        Storage { mode: StorageMode::Null, commands: Vec::new() }
    }

    /// Whether the writer has been found to be gone.
    pub fn writer_lost(&self) -> (r: bool)
        ensures
            r == (self@.mode is WriterLost),
    {
        self.mode == StorageMode::WriterLost
    }

    /// Records that the writer is gone. Returns true the first time only, so
    /// that the loss is reported once.
    pub fn record_writer_loss(&mut self) -> (first: bool)
        ensures
            first == !(old(self)@.mode is WriterLost),
            final(self)@ == (StorageView {
                mode: StorageMode::WriterLost,
                commands: Seq::empty(),
            }),
    {
        let first: bool = self.mode != StorageMode::WriterLost;
        self.mode = StorageMode::WriterLost;
        self.commands = Vec::new();
        first
    }

    /// Takes the commands that are not taken yet, in the order in which they
    /// were given.
    pub fn take_commands(&mut self) -> (r: Vec<Command>)
        ensures
            text::views(r@) == old(self)@.commands,
            final(self)@ == (StorageView { commands: Seq::empty(), ..old(self)@ }),
    {
        let mut taken: Vec<Command> = Vec::new();
        std::mem::swap(&mut taken, &mut self.commands);
        taken
    }

    fn send(&mut self, cmd: Command)
        ensures
            final(self)@ == old(self)@.sent(cmd@),
    {
        if self.mode == StorageMode::Writer {
            self.commands.push(cmd);
        }
    }

    pub fn upsert_retained(&mut self, topic: String, message: Message)
        ensures
            final(self)@ == old(self)@.sent(
                CommandView::UpsertRetained { topic: topic@, message: message@ },
            ),
    {
        self.send(Command::UpsertRetained { topic, message });
    }

    pub fn delete_retained(&mut self, topic: String)
        ensures
            final(self)@ == old(self)@.sent(CommandView::DeleteRetained { topic: topic@ }),
    {
        self.send(Command::DeleteRetained { topic });
    }

    pub fn upsert_session(
        &mut self,
        client_id: String,
        session_expiry: u32,
        owner_identity: Option<String>,
    )
        ensures
            final(self)@ == old(self)@.sent(
                CommandView::UpsertSession {
                    client_id: client_id@,
                    session_expiry,
                    owner_identity: text::opt_view(owner_identity),
                },
            ),
    {
        self.send(Command::UpsertSession { client_id, session_expiry, owner_identity });
    }

    pub fn delete_session(&mut self, client_id: String)
        ensures
            final(self)@ == old(self)@.sent(
                CommandView::DeleteSession { client_id: client_id@ },
            ),
    {
        self.send(Command::DeleteSession { client_id });
    }

    pub fn upsert_subscription(&mut self, client_id: String, sub: SubRecord)
        ensures
            final(self)@ == old(self)@.sent(
                CommandView::UpsertSubscription { client_id: client_id@, sub: sub@ },
            ),
    {
        self.send(Command::UpsertSubscription { client_id, sub });
    }

    pub fn delete_subscription(&mut self, client_id: String, filter: String)
        ensures
            final(self)@ == old(self)@.sent(
                CommandView::DeleteSubscription { client_id: client_id@, filter: filter@ },
            ),
    {
        self.send(Command::DeleteSubscription { client_id, filter });
    }

    pub fn clear_subscriptions(&mut self, client_id: String)
        ensures
            final(self)@ == old(self)@.sent(
                CommandView::ClearSubscriptions { client_id: client_id@ },
            ),
    {
        self.send(Command::ClearSubscriptions { client_id });
    }
}

/// A row of the table of retained messages.
#[derive(Debug)]
pub struct RetainedRow {
    pub topic: String,
    pub payload: Vec<u8>,
    pub qos: i64,
    pub payload_format: Option<i64>,
    pub content_type: Option<String>,
    pub response_topic: Option<String>,
    pub correlation_data: Option<Vec<u8>>,
    pub user_properties: Option<Vec<u8>>,
    pub expires_at: Option<i64>,
}

/// What a row of the table of retained messages says.
pub struct RetainedRowView {
    pub topic: Seq<char>,
    pub payload: Seq<u8>,
    pub qos: i64,
    pub payload_format: Option<i64>,
    pub content_type: Option<Seq<char>>,
    pub response_topic: Option<Seq<char>>,
    pub correlation_data: Option<Seq<u8>>,
    pub user_properties: Option<Seq<u8>>,
    pub expires_at: Option<i64>,
}

impl View for RetainedRow {
    type V = RetainedRowView;

    open spec fn view(&self) -> RetainedRowView {
        RetainedRowView {
            topic: self.topic@,
            payload: self.payload@,
            qos: self.qos,
            payload_format: self.payload_format,
            content_type: text::opt_view(self.content_type),
            response_topic: text::opt_view(self.response_topic),
            correlation_data: text::opt_view(self.correlation_data),
            user_properties: text::opt_view(self.user_properties),
            expires_at: self.expires_at,
        }
    }
}

/// A row of the table of subscriptions.
#[derive(Debug)]
pub struct SubscriptionRow {
    pub filter: String,
    pub qos: i64,
    pub no_local: i64,
    pub retain_as_published: i64,
    pub retain_handling: i64,
    pub sub_id: Option<i64>,
}

/// What a row of the table of subscriptions says.
pub struct SubscriptionRowView {
    pub filter: Seq<char>,
    pub qos: i64,
    pub no_local: i64,
    pub retain_as_published: i64,
    pub retain_handling: i64,
    pub sub_id: Option<i64>,
}

impl View for SubscriptionRow {
    type V = SubscriptionRowView;

    open spec fn view(&self) -> SubscriptionRowView {
        SubscriptionRowView {
            filter: self.filter@,
            qos: self.qos,
            no_local: self.no_local,
            retain_as_published: self.retain_as_published,
            retain_handling: self.retain_handling,
            sub_id: self.sub_id,
        }
    }
}

/// A row of the table of sessions, with the rows of its subscriptions.
#[derive(Debug)]
pub struct SessionRow {
    pub client_id: String,
    pub session_expiry: i64,
    pub owner_identity: Option<String>,
    pub subscriptions: Vec<SubscriptionRow>,
}

/// What a row of the table of sessions says.
pub struct SessionRowView {
    pub client_id: Seq<char>,
    pub session_expiry: i64,
    pub owner_identity: Option<Seq<char>>,
    pub subscriptions: Seq<SubscriptionRowView>,
}

impl View for SessionRow {
    type V = SessionRowView;

    open spec fn view(&self) -> SessionRowView {
        SessionRowView {
            client_id: self.client_id@,
            session_expiry: self.session_expiry,
            owner_identity: text::opt_view(self.owner_identity),
            subscriptions: text::views(self.subscriptions@),
        }
    }
}

/// The QoS that a stored number stands for; 0 where it stands for none.
pub open spec fn stored_qos(n: i64) -> QoS {
    match QoS::of_code(n as u8) {
        Some(q) => q,
        None => QoS::AtMostOnce,
    }
}

/// User properties as a sequence of pairs of strings.
pub open spec fn user_props_bytes(props: Seq<(Seq<char>, Seq<char>)>) -> Seq<u8>
    decreases props.len(),
{
    if props.len() == 0 {
        Seq::empty()
    } else {
        user_props_bytes(props.drop_last()) + (wire::text(props.last().0) + wire::text(
            props.last().1,
        ))
    }
}

/// The pairs so far and those that the bytes hold, up to the first that cannot
/// be read.
pub open spec fn parse_user_props(acc: Seq<(Seq<char>, Seq<char>)>, s: Seq<u8>) -> Seq<
    (Seq<char>, Seq<char>),
>
    decreases s.len(),
{
    if s.len() == 0 {
        acc
    } else {
        match wire::parse_pair(s) {
            None => acc,
            Some((p, rest)) => if rest.len() < s.len() {
                parse_user_props(acc.push(p), rest)
            } else {
                acc
            },
        }
    }
}

proof fn lemma_pair_shrinks(s: Seq<u8>)
    ensures
        wire::parse_pair(s) matches Some((p, rest)) ==> rest.len() < s.len(),
{
    wire::lemma_prefixed_shrinks(s);
    if let Some((k, rest)) = wire::parse_text(s) {
        wire::lemma_prefixed_shrinks(rest);
    }
}

proof fn lemma_user_props_roundtrip(
    acc: Seq<(Seq<char>, Seq<char>)>,
    props: Seq<(Seq<char>, Seq<char>)>,
    rest: Seq<u8>,
)
    requires
        props_storable(props),
    ensures
        parse_user_props(acc, user_props_bytes(props) + rest) == parse_user_props(
            acc + props,
            rest,
        ),
    decreases props.len(),
{
    if props.len() == 0 {
        assert(user_props_bytes(props) + rest =~= rest);
        assert(acc + props =~= acc);
    } else {
        let last = props.last();
        let one = wire::text(last.0) + wire::text(last.1) + rest;
        assert(user_props_bytes(props) + rest =~= user_props_bytes(props.drop_last()) + one);
        assert forall|i: int| 0 <= i < props.drop_last().len() implies wire::sendable_text(
            #[trigger] props.drop_last()[i].0,
        ) && wire::sendable_text(props.drop_last()[i].1) by {
            assert(wire::sendable_text(props[i].0));
        }
        lemma_user_props_roundtrip(acc, props.drop_last(), one);
        assert(wire::sendable_text(props[props.len() - 1].0));
        wire::pair_roundtrip(last.0, last.1, rest);
        lemma_pair_shrinks(one);
        assert((acc + props.drop_last()).push(last) =~= acc + props);
        reveal(wire::text);
        assert(one.len() > 0);
    }
}

/// Whether user properties can be stored and read back: each string fits its
/// length prefix and holds no U+0000.
pub open spec fn props_storable(props: Seq<(Seq<char>, Seq<char>)>) -> bool {
    forall|i: int|
        0 <= i < props.len() ==> wire::sendable_text(#[trigger] props[i].0) && wire::sendable_text(
            props[i].1,
        )
}

/// Stored user properties read back as they were.
pub proof fn user_props_roundtrip(props: Seq<(Seq<char>, Seq<char>)>)
    requires
        props_storable(props),
    ensures
        parse_user_props(Seq::empty(), user_props_bytes(props)) == props,
{
    lemma_user_props_roundtrip(Seq::empty(), props, Seq::empty());
    assert(user_props_bytes(props) + Seq::<u8>::empty() =~= user_props_bytes(props));
    assert(Seq::<(Seq<char>, Seq<char>)>::empty() + props =~= props);
}

impl RetainedRowView {
    /// The message that a row holds.
    pub open spec fn message(self) -> MessageView {
        MessageView {
            topic: self.topic,
            payload: self.payload,
            qos: stored_qos(self.qos),
            retain: true,
            payload_format_indicator: match self.payload_format {
                Some(v) => Some(v as u8),
                None => None,
            },
            content_type: self.content_type,
            response_topic: self.response_topic,
            correlation_data: self.correlation_data,
            user_properties: match self.user_properties {
                Some(b) => parse_user_props(Seq::empty(), b),
                None => Seq::empty(),
            },
            expires_at: match self.expires_at {
                Some(v) => Some(v as u64),
                None => None,
            },
        }
    }

    /// The row that holds a message.
    pub open spec fn of(topic: Seq<char>, m: MessageView) -> RetainedRowView {
        RetainedRowView {
            topic,
            payload: m.payload,
            qos: m.qos.code() as i64,
            payload_format: match m.payload_format_indicator {
                Some(v) => Some(v as i64),
                None => None,
            },
            content_type: m.content_type,
            response_topic: m.response_topic,
            correlation_data: m.correlation_data,
            user_properties: Some(user_props_bytes(m.user_properties)),
            expires_at: match m.expires_at {
                Some(v) => Some(v as i64),
                None => None,
            },
        }
    }
}

/// A retained message that is stored and loaded again is as it was.
pub proof fn retained_message_survives_storage(m: MessageView)
    requires
        m.retain,
        props_storable(m.user_properties),
    ensures
        RetainedRowView::of(m.topic, m).message() == m,
{
    user_props_roundtrip(m.user_properties);
    crate::types::qos_codes(m.qos, 0);
    let code = m.qos.code();
    assert(((code as i64) as u8) == code) by (bit_vector);
    if let Some(v) = m.payload_format_indicator {
        assert(((v as i64) as u8) == v) by (bit_vector);
    }
    if let Some(v) = m.expires_at {
        assert(((v as i64) as u64) == v) by (bit_vector);
    }
}

impl SubscriptionRowView {
    /// The subscription that a row holds.
    pub open spec fn record(self) -> SubRecordView {
        SubRecordView {
            filter: self.filter,
            qos: stored_qos(self.qos),
            no_local: self.no_local != 0,
            retain_as_published: self.retain_as_published != 0,
            retain_handling: if self.retain_handling == 1 {
                RetainHandling::SendIfNewSubscription
            } else if self.retain_handling == 2 {
                RetainHandling::DoNotSend
            } else {
                RetainHandling::SendAtSubscribe
            },
            subscription_identifier: match self.sub_id {
                Some(v) => Some(v as u32),
                None => None,
            },
        }
    }

    /// The row that holds a subscription.
    pub open spec fn of(r: SubRecordView) -> SubscriptionRowView {
        SubscriptionRowView {
            filter: r.filter,
            qos: r.qos.code() as i64,
            no_local: if r.no_local {
                1
            } else {
                0
            },
            retain_as_published: if r.retain_as_published {
                1
            } else {
                0
            },
            retain_handling: r.retain_handling.code() as i64,
            sub_id: match r.subscription_identifier {
                Some(v) => Some(v as i64),
                None => None,
            },
        }
    }
}

/// A subscription that is stored and loaded again is as it was.
pub proof fn subscription_survives_storage(r: SubRecordView)
    ensures
        SubscriptionRowView::of(r).record() == r,
{
    crate::types::qos_codes(r.qos, 0);
    let code = r.qos.code();
    assert(((code as i64) as u8) == code) by (bit_vector);
    if let Some(v) = r.subscription_identifier {
        assert(((v as i64) as u32) == v) by (bit_vector);
    }
}

impl SessionRowView {
    /// The session that a row holds.
    pub open spec fn record(self) -> SessionRecordView {
        SessionRecordView {
            client_id: self.client_id,
            session_expiry_interval: self.session_expiry as u32,
            owner_identity: self.owner_identity,
            subscriptions: Seq::new(
                self.subscriptions.len(),
                |i: int| self.subscriptions[i].record(),
            ),
        }
    }
}

/// The retained messages that rows hold and that have not expired.
pub open spec fn live_retained(rows: Seq<RetainedRowView>, now: u64) -> Seq<
    (Seq<char>, MessageView),
>
    decreases rows.len(),
{
    if rows.len() == 0 {
        Seq::empty()
    } else {
        let before = live_retained(rows.drop_last(), now);
        if rows.last().message().expired(now) {
            before
        } else {
            before.push((rows.last().topic, rows.last().message()))
        }
    }
}

fn qos_of_row(n: i64) -> (r: QoS)
    ensures
        r == stored_qos(n),
{
    match QoS::from_u8(#[verifier::truncate] (n as u8)) {
        Ok(q) => q,
        Err(_) => QoS::AtMostOnce,
    }
}

/// User properties as bytes, in the string encoding of the wire.
pub fn encode_user_props(props: &Vec<(String, String)>) -> (r: Vec<u8>)
    ensures
        r@ == user_props_bytes(text::pair_views(props@)),
{
    let mut w: Writer = Writer::new();
    let ghost all = text::pair_views(props@);
    let mut i: usize = 0;
    assert(all.take(0) =~= Seq::empty());
    while i < props.len()
        invariant
            i <= props.len(),
            all == text::pair_views(props@),
            w@ == user_props_bytes(all.take(i as int)),
        decreases props.len() - i,
    {
        w.put_utf8_pair(props[i].0.as_str(), props[i].1.as_str());
        assert(all.take(i + 1).drop_last() =~= all.take(i as int));
        i = i + 1;
    }
    assert(all.take(all.len() as int) =~= all);
    w.into_vec()
}

/// User properties from bytes, up to the first pair that cannot be read.
pub fn decode_user_props(blob: &[u8]) -> (r: Vec<(String, String)>)
    ensures
        text::pair_views(r@) == parse_user_props(Seq::empty(), blob@),
{
    let mut r: Reader = Reader::new(blob);
    let mut out: Vec<(String, String)> = Vec::new();
    assert(text::pair_views(out@) =~= Seq::empty());
    while r.has_remaining()
        invariant_except_break
            parse_user_props(text::pair_views(out@), r@) == parse_user_props(Seq::empty(), blob@),
        ensures
            text::pair_views(out@) == parse_user_props(Seq::empty(), blob@),
        decreases r@.len(),
    {
        let ghost before = text::pair_views(out@);
        proof {
            lemma_pair_shrinks(r@);
        }
        match r.utf8_pair() {
            Ok(pair) => {
                out.push(pair);
                assert(text::pair_views(out@) =~= before.push((pair.0@, pair.1@)));
            },
            Err(_) => {
                break;
            },
        }
    }
    out
}

/// The message that a row holds.
pub fn message_of_row(row: RetainedRow) -> (r: Message)
    ensures
        r@ == row@.message(),
{
    let user_properties: Vec<(String, String)> = match &row.user_properties {
        Some(b) => decode_user_props(b.as_slice()),
        None => Vec::new(),
    };
    assert(row.user_properties is None ==> text::pair_views(user_properties@) =~= Seq::empty());
    Message {
        topic: row.topic,
        payload: row.payload,
        qos: qos_of_row(row.qos),
        retain: true,
        payload_format_indicator: match row.payload_format {
            Some(v) => Some(#[verifier::truncate] (v as u8)),
            None => None,
        },
        content_type: row.content_type,
        response_topic: row.response_topic,
        correlation_data: row.correlation_data,
        user_properties,
        expires_at: match row.expires_at {
            Some(v) => Some(#[verifier::truncate] (v as u64)),
            None => None,
        },
    }
}

/// The row that holds a retained message.
pub fn row_of_message(topic: &String, m: &Message) -> (r: RetainedRow)
    ensures
        r@ == RetainedRowView::of(topic@, m@),
{
    RetainedRow {
        topic: topic.clone(),
        payload: text::clone_bytes(&m.payload),
        qos: m.qos.as_u8() as i64,
        payload_format: match m.payload_format_indicator {
            Some(v) => Some(v as i64),
            None => None,
        },
        content_type: clone_opt_string(&m.content_type),
        response_topic: clone_opt_string(&m.response_topic),
        correlation_data: clone_opt_bytes(&m.correlation_data),
        user_properties: Some(encode_user_props(&m.user_properties)),
        expires_at: match m.expires_at {
            Some(v) => Some(#[verifier::truncate] (v as i64)),
            None => None,
        },
    }
}

/// The subscription that a row holds.
pub fn record_of_row(row: SubscriptionRow) -> (r: SubRecord)
    ensures
        r@ == row@.record(),
{
    SubRecord {
        filter: row.filter,
        qos: qos_of_row(row.qos),
        no_local: row.no_local != 0,
        retain_as_published: row.retain_as_published != 0,
        retain_handling: if row.retain_handling == 1 {
            RetainHandling::SendIfNewSubscription
        } else if row.retain_handling == 2 {
            RetainHandling::DoNotSend
        } else {
            RetainHandling::SendAtSubscribe
        },
        subscription_identifier: match row.sub_id {
            Some(v) => Some(#[verifier::truncate] (v as u32)),
            None => None,
        },
    }
}

/// The row that holds a subscription.
pub fn row_of_record(sub: &SubRecord) -> (r: SubscriptionRow)
    ensures
        r@ == SubscriptionRowView::of(sub@),
{
    SubscriptionRow {
        filter: sub.filter.clone(),
        qos: sub.qos.as_u8() as i64,
        no_local: if sub.no_local {
            1
        } else {
            0
        },
        retain_as_published: if sub.retain_as_published {
            1
        } else {
            0
        },
        retain_handling: sub.retain_handling.as_u8() as i64,
        sub_id: match sub.subscription_identifier {
            Some(v) => Some(v as i64),
            None => None,
        },
    }
}

fn session_of_row(row: SessionRow) -> (r: SessionRecord)
    ensures
        r@ == row@.record(),
{
    let ghost all = row@.subscriptions;
    let mut left: Vec<SubscriptionRow> = row.subscriptions;
    let mut subscriptions: Vec<SubRecord> = Vec::new();
    while left.len() > 0
        invariant
            all.len() == subscriptions@.len() + left@.len(),
            text::views(left@) == all.skip(subscriptions@.len() as int),
            forall|i: int|
                0 <= i < subscriptions@.len() ==> (#[trigger] subscriptions@[i])@
                    == all[i].record(),
        decreases left@.len(),
    {
        let ghost k = subscriptions@.len() as int;
        let s: SubscriptionRow = left.remove(0);
        assert(s@ == all.skip(k)[0]);
        assert(text::views(left@) =~= all.skip(k + 1));
        subscriptions.push(record_of_row(s));
    }
    let r: SessionRecord = SessionRecord {
        client_id: row.client_id,
        session_expiry_interval: #[verifier::truncate] (row.session_expiry as u32),
        owner_identity: row.owner_identity,
        subscriptions,
    };
    assert(r@.subscriptions =~= row@.record().subscriptions);
    r
}

/// The state at startup from the rows of the database; retained messages that
/// have expired are left out.
pub fn load_all(retained: Vec<RetainedRow>, sessions: Vec<SessionRow>, now: u64) -> (r:
    LoadedState)
    ensures
        retained_views(r.retained@) == live_retained(text::views(retained@), now),
        r.sessions@.len() == sessions@.len(),
        forall|i: int|
            0 <= i < sessions@.len() ==> (#[trigger] r.sessions@[i])@ == sessions@[i]@.record(),
{
    let ghost rows = text::views(retained@);
    let ghost n = rows.len();
    let mut left: Vec<RetainedRow> = retained;
    let mut live: Vec<(String, Message)> = Vec::new();
    let ghost mut k: int = 0;
    assert(rows.take(0) =~= Seq::empty());
    assert(retained_views(live@) =~= Seq::empty());
    assert(rows.skip(0) =~= rows);
    while left.len() > 0
        invariant
            0 <= k <= n,
            n == rows.len(),
            k + left@.len() == n,
            text::views(left@) == rows.skip(k),
            retained_views(live@) == live_retained(rows.take(k), now),
        decreases left@.len(),
    {
        let ghost before = retained_views(live@);
        let row: RetainedRow = left.remove(0);
        let ghost rv = row@;
        assert(rv == rows.skip(k)[0]);
        assert(text::views(left@) =~= rows.skip(k + 1));
        assert(rows.take(k + 1).drop_last() =~= rows.take(k));
        let topic: String = row.topic.clone();
        let message: Message = message_of_row(row);
        if !message.is_expired_at(now) {
            live.push((topic, message));
            assert(retained_views(live@) =~= before.push((topic@, message@)));
        }
        proof {
            k = k + 1;
        }
    }
    assert(rows.take(n as int) =~= rows);
    let ghost all = sessions@;
    let mut rest: Vec<SessionRow> = sessions;
    let mut records: Vec<SessionRecord> = Vec::new();
    while rest.len() > 0
        invariant
            all.len() == records@.len() + rest@.len(),
            rest@ == all.skip(records@.len() as int),
            forall|i: int|
                0 <= i < records@.len() ==> (#[trigger] records@[i])@ == all[i]@.record(),
        decreases rest@.len(),
    {
        let ghost j = records@.len() as int;
        let s: SessionRow = rest.remove(0);
        assert(rest@ =~= all.skip(j + 1));
        records.push(session_of_row(s));
    }
    LoadedState { retained: live, sessions: records }
}

/// What is loaded of the retained messages are those whose time has not come.
pub proof fn expired_messages_are_not_loaded(rows: Seq<RetainedRowView>, row: RetainedRowView, now: u64)
    ensures
        live_retained(rows.push(row), now) == (if row.message().expires_at matches Some(end) && end
            <= now {
            live_retained(rows, now)
        } else {
            live_retained(rows, now).push((row.topic, row.message()))
        }),
        live_retained(Seq::empty(), now).len() == 0,
{
    assert(rows.push(row).drop_last() =~= rows);
}

} // verus!
