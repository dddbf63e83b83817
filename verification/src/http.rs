//! The messages a station answers with and the query it is sent, each with
//! the byte-level meaning of its encoding.
//!
//! A message is a run of fields. Reading one starts from a message value and
//! folds the fields into it in order: a scalar field replaces what was there, an
//! embedded message is merged into the one already present, and a repeated
//! field gains an element. Fields that a message has no place for are passed
//! over.

use vstd::prelude::*;
use crate::wire::{
    decode_key, delimited_field, encode_int32, encode_varint, int32_field_bytes, key_at,
    lemma_readers_shrink, low_32, low_32_signed, read_delimited, read_int32, read_string,
    read_uint32, read_uint64, skip_unknown, string_field, unknown_field, varint_bytes,
    varint_field, WireError,
};

verus! {

/// The views of the elements of `items`, in order.
pub open spec fn views<T: View>(items: Seq<T>) -> Seq<T::V> {
    items.map_values(|item: T| item@)
}

/// The view of `item` where there is one.
pub open spec fn view_of<T: View>(item: Option<T>) -> Option<T::V> {
    match item {
        Some(inner) => Some(inner@),
        None => None,
    }
}

/// The kinds of query a station is sent here.
#[derive(Clone, Copy, Debug, PartialEq, Eq, Structural)]
pub enum QueryType {
    /// No query in particular; what an unset field stands for.
    QueryNone,
    /// Ask for the station's live readings.
    QueryGetReadings,
}

impl QueryType {
    /// The number that stands for this kind of query on the wire.
    pub open spec fn spec_number(self) -> i32 {
        match self {
            QueryType::QueryNone => 0,
            QueryType::QueryGetReadings => 22,
        }
    }

    /// The number that stands for this kind of query on the wire.
    #[verifier::when_used_as_spec(spec_number)]
    pub fn number(self) -> (r: i32)
        ensures
            r == self.spec_number(),
    {
        match self {
            QueryType::QueryNone => 0,
            QueryType::QueryGetReadings => 22,
        }
    }
}

/// Field number of `HttpQuery::query_type`.
pub const QUERY_TYPE: u32 = 1;

/// A query to a station.
#[derive(Clone, Copy, Debug, PartialEq, Eq, Structural)]
pub struct HttpQuery {
    /// The kind of query, as its number on the wire.
    pub query_type: i32,
}

impl HttpQuery {
    /// The encoding of the query: its kind as a field, unless the kind is
    /// zero, which is left out.
    pub open spec fn encoded(self) -> Seq<u8> {
        if self.query_type != 0 {
            int32_field_bytes(QUERY_TYPE, self.query_type)
        } else {
            Seq::empty()
        }
    }

    /// The encoding of the query behind its length as a varint.
    pub open spec fn encoded_length_delimited(self) -> Seq<u8> {
        varint_bytes(self.encoded().len()) + self.encoded()
    }

    /// Encodes the query.
    pub fn encode_to_vec(&self) -> (r: Vec<u8>)
        ensures
            r@ == self.encoded(),
    {
        let mut buf: Vec<u8> = Vec::new();
        if self.query_type != 0 {
            encode_int32(QUERY_TYPE, self.query_type, &mut buf);
        }
        assert(buf@ =~= self.encoded());
        buf
    }

    /// Encodes the query behind its length.
    pub fn encode_length_delimited_to_vec(&self) -> (r: Vec<u8>)
        ensures
            r@ == self.encoded_length_delimited(),
    {
        let body = self.encode_to_vec();
        let mut buf: Vec<u8> = Vec::new();
        encode_varint(body.len() as u64, &mut buf);
        buf.extend_from_slice(body.as_slice());
        assert(buf@ =~= self.encoded_length_delimited());
        buf
    }
}

impl Default for HttpQuery {
    fn default() -> (r: HttpQuery)
        ensures
            r == (HttpQuery { query_type: 0 }),
    {
        HttpQuery { query_type: 0 }
    }
}

/// Who a station is.
#[derive(Clone, Debug, PartialEq)]
pub struct Identity {
    /// The station's device name.
    pub device: String,
    /// The name its owner gave it.
    pub name: String,
}

/// What an identity holds, as mathematical values.
pub struct IdentityView {
    pub device: Seq<char>,
    pub name: Seq<char>,
}

impl View for Identity {
    type V = IdentityView;

    open spec fn view(&self) -> IdentityView {
        IdentityView { device: self.device@, name: self.name@ }
    }
}

impl IdentityView {
    /// The identity with every field unset.
    pub open spec fn empty() -> IdentityView {
        IdentityView { device: Seq::empty(), name: Seq::empty() }
    }
}

impl Default for Identity {
    fn default() -> (r: Identity)
        ensures
            r@ == IdentityView::empty(),
    {
        Identity { device: String::new(), name: String::new() }
    }
}

/// Field number of `Identity::device`.
pub const IDENTITY_DEVICE: u32 = 1;

/// Field number of `Identity::name`.
pub const IDENTITY_NAME: u32 = 6;

/// The identity that results from folding the fields encoded in `data` into
/// `msg`, or `None` where `data` is not a run of well-formed fields.
pub open spec fn merged_identity(msg: IdentityView, data: Seq<u8>) -> Option<IdentityView>
    decreases data.len(),
    via merged_identity_decreases
{
    if data.len() == 0 {
        Some(msg)
    } else {
        match key_at(data) {
            Some((tag, wire, rest)) => if tag == IDENTITY_DEVICE {
                match string_field(wire, rest) {
                    Some((device, tail)) => merged_identity(IdentityView { device, ..msg }, tail),
                    None => None,
                }
            } else if tag == IDENTITY_NAME {
                match string_field(wire, rest) {
                    Some((name, tail)) => merged_identity(IdentityView { name, ..msg }, tail),
                    None => None,
                }
            } else {
                match unknown_field(wire, tag, rest) {
                    Some(tail) => merged_identity(msg, tail),
                    None => None,
                }
            },
            None => None,
        }
    }
}

#[via_fn]
proof fn merged_identity_decreases(msg: IdentityView, data: Seq<u8>) {
    lemma_readers_shrink(data);
}

/// Folds the fields encoded in `data` into `msg`.
pub fn merge_identity(msg: Identity, data: &[u8]) -> (r: Result<Identity, WireError>)
    ensures
        match r {
            Ok(merged) => merged_identity(msg@, data@) == Some(merged@),
            Err(_) => merged_identity(msg@, data@) is None,
        },
{
    let ghost start = msg@;
    let mut current = msg;
    let mut cur = data;
    while cur.len() > 0
        invariant
            start == msg@,
            merged_identity(current@, cur@) == merged_identity(start, data@),
        decreases cur@.len(),
    {
        let (tag, wire, rest) = decode_key(cur)?;
        proof {
            lemma_readers_shrink(cur@);
        }
        if tag == IDENTITY_DEVICE {
            let (device, tail) = read_string(wire, rest)?;
            current.device = device;
            cur = tail;
        } else if tag == IDENTITY_NAME {
            let (name, tail) = read_string(wire, rest)?;
            current.name = name;
            cur = tail;
        } else {
            cur = skip_unknown(wire, tag, rest)?;
        }
    }
    Ok(current)
}

/// What a module attached to a station says of itself.
#[derive(Clone, Debug, PartialEq)]
pub struct ModuleCapabilities {
    /// The bay the module sits in.
    pub position: u32,
    /// The module's name.
    pub name: String,
}

/// What a module's capabilities holds, as mathematical values.
pub struct ModuleCapabilitiesView {
    pub position: u32,
    pub name: Seq<char>,
}

impl View for ModuleCapabilities {
    type V = ModuleCapabilitiesView;

    open spec fn view(&self) -> ModuleCapabilitiesView {
        ModuleCapabilitiesView { position: self.position, name: self.name@ }
    }
}

impl ModuleCapabilitiesView {
    /// The capabilities with every field unset.
    pub open spec fn empty() -> ModuleCapabilitiesView {
        ModuleCapabilitiesView { position: 0, name: Seq::empty() }
    }
}

impl Default for ModuleCapabilities {
    fn default() -> (r: ModuleCapabilities)
        ensures
            r@ == ModuleCapabilitiesView::empty(),
    {
        ModuleCapabilities { position: 0, name: String::new() }
    }
}

/// Field number of `ModuleCapabilities::position`.
pub const MODULE_POSITION: u32 = 1;

/// Field number of `ModuleCapabilities::name`.
pub const MODULE_NAME: u32 = 2;

/// The capabilities that result from folding the fields encoded in `data` into
/// `msg`, or `None` where `data` is not a run of well-formed fields.
pub open spec fn merged_module(msg: ModuleCapabilitiesView, data: Seq<u8>) -> Option<
    ModuleCapabilitiesView,
>
    decreases data.len(),
    via merged_module_decreases
{
    if data.len() == 0 {
        Some(msg)
    } else {
        match key_at(data) {
            Some((tag, wire, rest)) => if tag == MODULE_POSITION {
                match varint_field(wire, rest) {
                    Some((position, tail)) => merged_module(
                        ModuleCapabilitiesView { position: low_32(position), ..msg },
                        tail,
                    ),
                    None => None,
                }
            } else if tag == MODULE_NAME {
                match string_field(wire, rest) {
                    Some((name, tail)) => merged_module(ModuleCapabilitiesView { name, ..msg }, tail),
                    None => None,
                }
            } else {
                match unknown_field(wire, tag, rest) {
                    Some(tail) => merged_module(msg, tail),
                    None => None,
                }
            },
            None => None,
        }
    }
}

#[via_fn]
proof fn merged_module_decreases(msg: ModuleCapabilitiesView, data: Seq<u8>) {
    lemma_readers_shrink(data);
}

/// Folds the fields encoded in `data` into `msg`.
pub fn merge_module(msg: ModuleCapabilities, data: &[u8]) -> (r: Result<
    ModuleCapabilities,
    WireError,
>)
    ensures
        match r {
            Ok(merged) => merged_module(msg@, data@) == Some(merged@),
            Err(_) => merged_module(msg@, data@) is None,
        },
{
    let ghost start = msg@;
    let mut current = msg;
    let mut cur = data;
    while cur.len() > 0
        invariant
            start == msg@,
            merged_module(current@, cur@) == merged_module(start, data@),
        decreases cur@.len(),
    {
        let (tag, wire, rest) = decode_key(cur)?;
        proof {
            lemma_readers_shrink(cur@);
        }
        if tag == MODULE_POSITION {
            let (position, tail) = read_uint32(wire, rest)?;
            current.position = position;
            cur = tail;
        } else if tag == MODULE_NAME {
            let (name, tail) = read_string(wire, rest)?;
            current.name = name;
            cur = tail;
        } else {
            cur = skip_unknown(wire, tag, rest)?;
        }
    }
    Ok(current)
}

/// The live readings of one module.
#[derive(Clone, Debug, PartialEq)]
pub struct LiveModuleReadings {
    /// The module the readings come from.
    pub module: Option<ModuleCapabilities>,
}

/// What a module's readings holds, as mathematical values.
pub struct LiveModuleReadingsView {
    pub module: Option<ModuleCapabilitiesView>,
}

impl View for LiveModuleReadings {
    type V = LiveModuleReadingsView;

    open spec fn view(&self) -> LiveModuleReadingsView {
        LiveModuleReadingsView { module: view_of(self.module) }
    }
}

impl LiveModuleReadingsView {
    /// The readings with every field unset.
    pub open spec fn empty() -> LiveModuleReadingsView {
        LiveModuleReadingsView { module: None }
    }
}

impl Default for LiveModuleReadings {
    fn default() -> (r: LiveModuleReadings)
        ensures
            r@ == LiveModuleReadingsView::empty(),
    {
        LiveModuleReadings { module: None }
    }
}

/// Field number of `LiveModuleReadings::module`.
pub const MODULE_READINGS_MODULE: u32 = 1;

/// The module readings that result from folding the fields encoded in `data`
/// into `msg`, or `None` where `data` is not a run of well-formed fields.
pub open spec fn merged_module_readings(msg: LiveModuleReadingsView, data: Seq<u8>) -> Option<
    LiveModuleReadingsView,
>
    decreases data.len(),
    via merged_module_readings_decreases
{
    if data.len() == 0 {
        Some(msg)
    } else {
        match key_at(data) {
            Some((tag, wire, rest)) => if tag == MODULE_READINGS_MODULE {
                match delimited_field(wire, rest) {
                    Some((payload, tail)) => match merged_module(
                        match msg.module {
                            Some(module) => module,
                            None => ModuleCapabilitiesView::empty(),
                        },
                        payload,
                    ) {
                        Some(module) => merged_module_readings(
                            LiveModuleReadingsView { module: Some(module) },
                            tail,
                        ),
                        None => None,
                    },
                    None => None,
                }
            } else {
                match unknown_field(wire, tag, rest) {
                    Some(tail) => merged_module_readings(msg, tail),
                    None => None,
                }
            },
            None => None,
        }
    }
}

#[via_fn]
proof fn merged_module_readings_decreases(msg: LiveModuleReadingsView, data: Seq<u8>) {
    lemma_readers_shrink(data);
}

/// Folds the fields encoded in `data` into `msg`.
pub fn merge_module_readings(msg: LiveModuleReadings, data: &[u8]) -> (r: Result<
    LiveModuleReadings,
    WireError,
>)
    ensures
        match r {
            Ok(merged) => merged_module_readings(msg@, data@) == Some(merged@),
            Err(_) => merged_module_readings(msg@, data@) is None,
        },
{
    let ghost start = msg@;
    let mut module = msg.module;
    let mut cur = data;
    while cur.len() > 0
        invariant
            start == msg@,
            merged_module_readings(LiveModuleReadingsView { module: view_of(module) }, cur@)
                == merged_module_readings(start, data@),
        decreases cur@.len(),
    {
        let (tag, wire, rest) = decode_key(cur)?;
        proof {
            lemma_readers_shrink(cur@);
        }
        if tag == MODULE_READINGS_MODULE {
            let (payload, tail) = read_delimited(wire, rest)?;
            let base = match module {
                Some(found) => found,
                None => ModuleCapabilities::default(),
            };
            module = Some(merge_module(base, payload)?);
            cur = tail;
        } else {
            cur = skip_unknown(wire, tag, rest)?;
        }
    }
    Ok(LiveModuleReadings { module })
}

/// One round of live readings, module by module.
#[derive(Clone, Debug, PartialEq)]
pub struct LiveReadings {
    /// When the readings were taken, in seconds of the station's clock.
    pub time: u64,
    /// The readings of each module, in the order the station sent them.
    pub modules: Vec<LiveModuleReadings>,
}

/// What a round of readings holds, as mathematical values.
pub struct LiveReadingsView {
    pub time: u64,
    pub modules: Seq<LiveModuleReadingsView>,
}

impl View for LiveReadings {
    type V = LiveReadingsView;

    open spec fn view(&self) -> LiveReadingsView {
        LiveReadingsView { time: self.time, modules: views(self.modules@) }
    }
}

impl LiveReadingsView {
    /// The readings with every field unset.
    pub open spec fn empty() -> LiveReadingsView {
        LiveReadingsView { time: 0, modules: Seq::empty() }
    }
}

impl Default for LiveReadings {
    fn default() -> (r: LiveReadings)
        ensures
            r@ == LiveReadingsView::empty(),
    {
        let r = LiveReadings { time: 0, modules: Vec::new() };
        assert(r@.modules =~= Seq::empty());
        r
    }
}

/// Field number of `LiveReadings::time`.
pub const READINGS_TIME: u32 = 1;

/// Field number of `LiveReadings::modules`.
pub const READINGS_MODULES: u32 = 2;

/// The readings that result from folding the fields encoded in `data` into
/// `msg`, or `None` where `data` is not a run of well-formed fields.
pub open spec fn merged_readings(msg: LiveReadingsView, data: Seq<u8>) -> Option<LiveReadingsView>
    decreases data.len(),
    via merged_readings_decreases
{
    if data.len() == 0 {
        Some(msg)
    } else {
        match key_at(data) {
            Some((tag, wire, rest)) => if tag == READINGS_TIME {
                match varint_field(wire, rest) {
                    Some((time, tail)) => merged_readings(
                        LiveReadingsView { time: time as u64, ..msg },
                        tail,
                    ),
                    None => None,
                }
            } else if tag == READINGS_MODULES {
                match delimited_field(wire, rest) {
                    Some((payload, tail)) => match merged_module_readings(
                        LiveModuleReadingsView::empty(),
                        payload,
                    ) {
                        Some(module) => merged_readings(
                            LiveReadingsView { modules: msg.modules.push(module), ..msg },
                            tail,
                        ),
                        None => None,
                    },
                    None => None,
                }
            } else {
                match unknown_field(wire, tag, rest) {
                    Some(tail) => merged_readings(msg, tail),
                    None => None,
                }
            },
            None => None,
        }
    }
}

#[via_fn]
proof fn merged_readings_decreases(msg: LiveReadingsView, data: Seq<u8>) {
    lemma_readers_shrink(data);
}

/// Folds the fields encoded in `data` into `msg`.
pub fn merge_readings(msg: LiveReadings, data: &[u8]) -> (r: Result<LiveReadings, WireError>)
    ensures
        match r {
            Ok(merged) => merged_readings(msg@, data@) == Some(merged@),
            Err(_) => merged_readings(msg@, data@) is None,
        },
{
    let ghost start = msg@;
    let mut current = msg;
    let mut cur = data;
    while cur.len() > 0
        invariant
            start == msg@,
            merged_readings(current@, cur@) == merged_readings(start, data@),
        decreases cur@.len(),
    {
        let (tag, wire, rest) = decode_key(cur)?;
        proof {
            lemma_readers_shrink(cur@);
        }
        if tag == READINGS_TIME {
            let (time, tail) = read_uint64(wire, rest)?;
            current.time = time;
            cur = tail;
        } else if tag == READINGS_MODULES {
            let (payload, tail) = read_delimited(wire, rest)?;
            let module = merge_module_readings(LiveModuleReadings::default(), payload)?;
            let ghost before = current@;
            current.modules.push(module);
            assert(current@.modules =~= before.modules.push(module@));
            cur = tail;
        } else {
            cur = skip_unknown(wire, tag, rest)?;
        }
    }
    Ok(current)
}

/// What a station reports of itself.
#[derive(Clone, Debug, PartialEq)]
pub struct Status {
    /// Version of the status layout.
    pub version: u32,
    /// Time since the station started.
    pub uptime: u32,
    /// Who the station is.
    pub identity: Option<Identity>,
    /// The station's recent log text.
    pub logs: String,
}

/// What a status holds, as mathematical values.
pub struct StatusView {
    pub version: u32,
    pub uptime: u32,
    pub identity: Option<IdentityView>,
    pub logs: Seq<char>,
}

impl View for Status {
    type V = StatusView;

    open spec fn view(&self) -> StatusView {
        StatusView {
            version: self.version,
            uptime: self.uptime,
            identity: view_of(self.identity),
            logs: self.logs@,
        }
    }
}

impl StatusView {
    /// The status with every field unset.
    pub open spec fn empty() -> StatusView {
        StatusView { version: 0, uptime: 0, identity: None, logs: Seq::empty() }
    }
}

impl Default for Status {
    fn default() -> (r: Status)
        ensures
            r@ == StatusView::empty(),
    {
        Status { version: 0, uptime: 0, identity: None, logs: String::new() }
    }
}

/// Field number of `Status::version`.
pub const STATUS_VERSION: u32 = 1;

/// Field number of `Status::uptime`.
pub const STATUS_UPTIME: u32 = 2;

/// Field number of `Status::identity`.
pub const STATUS_IDENTITY: u32 = 3;

/// Field number of `Status::logs`.
pub const STATUS_LOGS: u32 = 13;

/// The status that results from folding the fields encoded in `data` into
/// `msg`, or `None` where `data` is not a run of well-formed fields.
pub open spec fn merged_status(msg: StatusView, data: Seq<u8>) -> Option<StatusView>
    decreases data.len(),
    via merged_status_decreases
{
    if data.len() == 0 {
        Some(msg)
    } else {
        match key_at(data) {
            Some((tag, wire, rest)) => if tag == STATUS_VERSION {
                match varint_field(wire, rest) {
                    Some((version, tail)) => merged_status(
                        StatusView { version: low_32(version), ..msg },
                        tail,
                    ),
                    None => None,
                }
            } else if tag == STATUS_UPTIME {
                match varint_field(wire, rest) {
                    Some((uptime, tail)) => merged_status(
                        StatusView { uptime: low_32(uptime), ..msg },
                        tail,
                    ),
                    None => None,
                }
            } else if tag == STATUS_IDENTITY {
                match delimited_field(wire, rest) {
                    Some((payload, tail)) => match merged_identity(
                        match msg.identity {
                            Some(identity) => identity,
                            None => IdentityView::empty(),
                        },
                        payload,
                    ) {
                        Some(identity) => merged_status(
                            StatusView { identity: Some(identity), ..msg },
                            tail,
                        ),
                        None => None,
                    },
                    None => None,
                }
            } else if tag == STATUS_LOGS {
                match string_field(wire, rest) {
                    Some((logs, tail)) => merged_status(StatusView { logs, ..msg }, tail),
                    None => None,
                }
            } else {
                match unknown_field(wire, tag, rest) {
                    Some(tail) => merged_status(msg, tail),
                    None => None,
                }
            },
            None => None,
        }
    }
}

#[via_fn]
proof fn merged_status_decreases(msg: StatusView, data: Seq<u8>) {
    lemma_readers_shrink(data);
}

/// Folds the fields encoded in `data` into `msg`.
pub fn merge_status(msg: Status, data: &[u8]) -> (r: Result<Status, WireError>)
    ensures
        match r {
            Ok(merged) => merged_status(msg@, data@) == Some(merged@),
            Err(_) => merged_status(msg@, data@) is None,
        },
{
    let ghost start = msg@;
    let Status { version, uptime, identity, logs } = msg;
    let mut version = version;
    let mut uptime = uptime;
    let mut identity = identity;
    let mut logs = logs;
    let mut cur = data;
    while cur.len() > 0
        invariant
            start == msg@,
            merged_status(
                StatusView { version, uptime, identity: view_of(identity), logs: logs@ },
                cur@,
            ) == merged_status(start, data@),
        decreases cur@.len(),
    {
        let (tag, wire, rest) = decode_key(cur)?;
        proof {
            lemma_readers_shrink(cur@);
        }
        if tag == STATUS_VERSION {
            let (value, tail) = read_uint32(wire, rest)?;
            version = value;
            cur = tail;
        } else if tag == STATUS_UPTIME {
            let (value, tail) = read_uint32(wire, rest)?;
            uptime = value;
            cur = tail;
        } else if tag == STATUS_IDENTITY {
            let (payload, tail) = read_delimited(wire, rest)?;
            let base = match identity {
                Some(found) => found,
                None => Identity::default(),
            };
            identity = Some(merge_identity(base, payload)?);
            cur = tail;
        } else if tag == STATUS_LOGS {
            let (text, tail) = read_string(wire, rest)?;
            logs = text;
            cur = tail;
        } else {
            cur = skip_unknown(wire, tag, rest)?;
        }
    }
    Ok(Status { version, uptime, identity, logs })
}

/// What a station answers a query with.
#[derive(Clone, Debug, PartialEq)]
pub struct HttpReply {
    /// The kind of reply, as the number the station sent.
    pub reply_type: i32,
    /// The station's status, where the reply carries one.
    pub status: Option<Status>,
    /// The rounds of live readings the reply carries.
    pub live_readings: Vec<LiveReadings>,
}

/// What a reply holds, as mathematical values.
pub struct HttpReplyView {
    pub reply_type: i32,
    pub status: Option<StatusView>,
    pub live_readings: Seq<LiveReadingsView>,
}

impl View for HttpReply {
    type V = HttpReplyView;

    open spec fn view(&self) -> HttpReplyView {
        HttpReplyView {
            reply_type: self.reply_type,
            status: view_of(self.status),
            live_readings: views(self.live_readings@),
        }
    }
}

impl HttpReplyView {
    /// The reply with every field unset.
    pub open spec fn empty() -> HttpReplyView {
        HttpReplyView { reply_type: 0, status: None, live_readings: Seq::empty() }
    }
}

impl Default for HttpReply {
    fn default() -> (r: HttpReply)
        ensures
            r@ == HttpReplyView::empty(),
    {
        let r = HttpReply { reply_type: 0, status: None, live_readings: Vec::new() };
        assert(r@.live_readings =~= Seq::empty());
        r
    }
}

/// Field number of `HttpReply::reply_type`.
pub const REPLY_TYPE: u32 = 1;

/// Field number of `HttpReply::status`.
pub const REPLY_STATUS: u32 = 3;

/// Field number of `HttpReply::live_readings`.
pub const REPLY_LIVE_READINGS: u32 = 7;

/// The reply that results from folding the fields encoded in `data` into
/// `msg`, or `None` where `data` is not a run of well-formed fields.
pub open spec fn merged_reply(msg: HttpReplyView, data: Seq<u8>) -> Option<HttpReplyView>
    decreases data.len(),
    via merged_reply_decreases
{
    if data.len() == 0 {
        Some(msg)
    } else {
        match key_at(data) {
            Some((tag, wire, rest)) => if tag == REPLY_TYPE {
                match varint_field(wire, rest) {
                    Some((number, tail)) => merged_reply(
                        HttpReplyView { reply_type: low_32_signed(number), ..msg },
                        tail,
                    ),
                    None => None,
                }
            } else if tag == REPLY_STATUS {
                match delimited_field(wire, rest) {
                    Some((payload, tail)) => match merged_status(
                        match msg.status {
                            Some(status) => status,
                            None => StatusView::empty(),
                        },
                        payload,
                    ) {
                        Some(status) => merged_reply(
                            HttpReplyView { status: Some(status), ..msg },
                            tail,
                        ),
                        None => None,
                    },
                    None => None,
                }
            } else if tag == REPLY_LIVE_READINGS {
                match delimited_field(wire, rest) {
                    Some((payload, tail)) => match merged_readings(
                        LiveReadingsView::empty(),
                        payload,
                    ) {
                        Some(readings) => merged_reply(
                            HttpReplyView {
                                live_readings: msg.live_readings.push(readings),
                                ..msg
                            },
                            tail,
                        ),
                        None => None,
                    },
                    None => None,
                }
            } else {
                match unknown_field(wire, tag, rest) {
                    Some(tail) => merged_reply(msg, tail),
                    None => None,
                }
            },
            None => None,
        }
    }
}

#[via_fn]
proof fn merged_reply_decreases(msg: HttpReplyView, data: Seq<u8>) {
    lemma_readers_shrink(data);
}

/// Folds the fields encoded in `data` into `msg`.
pub fn merge_reply(msg: HttpReply, data: &[u8]) -> (r: Result<HttpReply, WireError>)
    ensures
        match r {
            Ok(merged) => merged_reply(msg@, data@) == Some(merged@),
            Err(_) => merged_reply(msg@, data@) is None,
        },
{
    let ghost start = msg@;
    let HttpReply { reply_type, status, live_readings } = msg;
    let mut reply_type = reply_type;
    let mut status = status;
    let mut live_readings = live_readings;
    let mut cur = data;
    while cur.len() > 0
        invariant
            start == msg@,
            merged_reply(
                HttpReplyView {
                    reply_type,
                    status: view_of(status),
                    live_readings: views(live_readings@),
                },
                cur@,
            ) == merged_reply(start, data@),
        decreases cur@.len(),
    {
        let (tag, wire, rest) = decode_key(cur)?;
        proof {
            lemma_readers_shrink(cur@);
        }
        if tag == REPLY_TYPE {
            let (number, tail) = read_int32(wire, rest)?;
            reply_type = number;
            cur = tail;
        } else if tag == REPLY_STATUS {
            let (payload, tail) = read_delimited(wire, rest)?;
            let base = match status {
                Some(found) => found,
                None => Status::default(),
            };
            status = Some(merge_status(base, payload)?);
            cur = tail;
        } else if tag == REPLY_LIVE_READINGS {
            let (payload, tail) = read_delimited(wire, rest)?;
            let readings = merge_readings(LiveReadings::default(), payload)?;
            let ghost before = views(live_readings@);
            live_readings.push(readings);
            assert(views(live_readings@) =~= before.push(readings@));
            cur = tail;
        } else {
            cur = skip_unknown(wire, tag, rest)?;
        }
    }
    Ok(HttpReply { reply_type, status, live_readings })
}

} // verus!
