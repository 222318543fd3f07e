//! The events that the on-device hooks record, one struct per hooked
//! method, and what the analysis reads from them.
use crate::db::{EventDrivenJob, TimeDrivenJob};
use crate::external::{base64_decoded, base64_standard_decode, gzip_decoded, gzip_read_all, string_from_utf8};
use crate::text::{chars_of, lines_of, lines_spec, parse_u32, rsplit_once_char, rsplit_once_spec, split_char, split_once_char, split_once_spec, split_spec, starts_with, str_eq, str_views, string_views, unsigned_in_range};
use crate::db::pair_views;
use vstd::prelude::*;
use vstd::utf8::{decode_utf8, valid_utf8};

verus! {

/// An IP address in text form and a port.
#[derive(Debug, Clone, PartialEq)]
pub struct SocketAddr {
    pub ip: String,
    pub port: u16,
}

/// A process fork seen by the kernel tracer.
#[derive(Debug, Clone, PartialEq)]
pub struct SchedProcessFork {
    pub parent_pid: i64,
    pub parent_tid: i64,
    pub child_pid: i64,
    pub uid: i64,
    pub ts: u128,
}

/// A task exit or creation seen by the kernel tracer.
#[derive(Debug, Clone, PartialEq)]
pub struct TaskInfo {
    pub parent_pid: i64,
    pub parent_tid: i64,
    pub uid: i64,
    pub ts: u128,
}

/// An IPv6 socket seen by the kernel tracer.
#[derive(Debug, Clone, PartialEq)]
pub struct SocketAddrV6 {
    pub uid: i64,
    pub pid: i64,
    pub tid: i64,
    pub protocol: u8,
    pub kind: u8,
    pub left_socket_addr: SocketAddr,
    pub right_socket_addr: SocketAddr,
    pub ts: u128,
}

/// An IPv4 socket seen by the kernel tracer.
#[derive(Debug, Clone, PartialEq)]
pub struct SocketAddrV4 {
    pub uid: i64,
    pub pid: i64,
    pub tid: i64,
    pub protocol: u8,
    pub kind: u8,
    pub left_socket_addr: SocketAddr,
    pub right_socket_addr: SocketAddr,
    pub ts: u128,
}

/// A call that schedules a job with the job scheduler.
#[derive(Debug, Clone, PartialEq, Eq, Hash)]
pub struct JobScheduler {
    pub class_name: String,
    pub method_name: String,
    pub hashcode: i64,
    pub job_id: i64,
    pub backoff_policy: i64,
    pub clip_data: String,
    pub clip_grant_flags: i64,
    pub estimated_network_download_bytes: i64,
    pub estimated_network_upload_bytes: i64,
    pub flex_millis: i64,
    pub initial_backoff_millis: i64,
    pub interval_millis: i64,
    pub max_execution_delay_millis: i64,
    pub min_latency_millis: i64,
    pub minimum_network_chunk_bytes: i64,
    pub network_type: i64,
    pub priority: i64,
    pub service: String,
    pub required_network_capabilities: Vec<i32>,
    pub required_network_transport_types: Vec<i32>,
    pub trigger_content_max_delay: i64,
    pub trigger_content_update_delay: i64,
    pub trigger_content_uris: String,
    pub is_expedited: bool,
    pub is_important_while_foreground: bool,
    pub is_periodic: bool,
    pub is_persisted: bool,
    pub is_prefetch: bool,
    pub is_require_battery_not_low: bool,
    pub is_require_charging: bool,
    pub is_require_device_idle: bool,
    pub is_require_storage_not_low: bool,
    pub pid: i64,
    pub tid: i64,
    pub uid: i64,
    pub package_name: String,
    pub ts: u128,
    pub jtid: u64,
    pub importance: u64,
    pub stack_trace: String,
}

/// A recorded call of the hooked method `OnStartJob`.
#[derive(Debug, Clone, PartialEq)]
pub struct OnStartJob {
    pub class_name: String,
    pub method_name: String,
    pub hashcode: i64,
    pub job_id: i64,
    pub pid: i64,
    pub ts: u128,
    pub tid: i64,
    pub uid: i64,
    pub package_name: String,
    pub start_ts: u128,
    pub jtid: u64,
    pub importance: u64,
    pub stack_trace: String,
}

/// A recorded call of the hooked method `Intent`.
#[derive(Debug, Clone, PartialEq)]
pub struct Intent {
    pub class_name: String,
    pub method_name: String,
    pub hashcode: i64,
    pub action: String,
    pub component: String,
    pub data: String,
    pub extras: Vec<(String, String)>,
    pub intent_package: String,
    pub pid: i64,
    pub tid: i64,
    pub uid: i64,
    pub package_name: String,
    pub ts: u128,
    pub jtid: u64,
    pub importance: u64,
    pub stack_trace: String,
}

/// A recorded call of the hooked method `OnReceiveHook`.
#[derive(Debug, Clone, PartialEq)]
pub struct OnReceiveHook {
    pub class_name: String,
    pub method_name: String,
    pub hashcode: i64,
    pub action: String,
    pub component: String,
    pub data: String,
    pub extras: Vec<(String, String)>,
    pub intent_package: String,
    pub start_ts: u128,
    pub pid: i64,
    pub tid: i64,
    pub uid: i64,
    pub package_name: String,
    pub ts: u128,
    pub jtid: u64,
    pub importance: u64,
    pub stack_trace: String,
}

/// A recorded call of the hooked method `OnCreate`.
#[derive(Debug, Clone, PartialEq)]
pub struct OnCreate {
    pub class_name: String,
    pub method_name: String,
    pub hashcode: i64,
    pub pid: i64,
    pub tid: i64,
    pub uid: i64,
    pub package_name: String,
    pub ts: u128,
    pub jtid: u64,
    pub importance: u64,
    pub stack_trace: String,
}

/// A recorded call of the hooked method `GetBroadcast`.
#[derive(Debug, Clone, PartialEq)]
pub struct GetBroadcast {
    pub class_name: String,
    pub method_name: String,
    pub hashcode: i64,
    pub request_code: i64,
    pub action: String,
    pub component: String,
    pub data: String,
    pub extras: Vec<(String, String)>,
    pub intent_package: String,
    pub flags: i64,
    pub pid: i64,
    pub tid: i64,
    pub uid: i64,
    pub package_name: String,
    pub ts: u128,
    pub jtid: u64,
    pub importance: u64,
    pub stack_trace: String,
}

/// A recorded call of the hooked method `DoFinal`.
#[derive(Debug, Clone, PartialEq)]
pub struct DoFinal {
    pub class_name: String,
    pub method_name: String,
    pub hashcode: i64,
    pub ret: String,
    pub algorithm: String,
    pub pid: i64,
    pub tid: i64,
    pub uid: i64,
    pub package_name: String,
    pub ts: u128,
    pub jtid: u64,
    pub importance: u64,
    pub stack_trace: String,
}

/// A recorded call of the hooked method `DoFinalByte`.
#[derive(Debug, Clone, PartialEq)]
pub struct DoFinalByte {
    pub class_name: String,
    pub method_name: String,
    pub hashcode: i64,
    pub arg_input: String,
    pub ret: String,
    pub algorithm: String,
    pub pid: i64,
    pub tid: i64,
    pub uid: i64,
    pub package_name: String,
    pub ts: u128,
    pub jtid: u64,
    pub importance: u64,
    pub stack_trace: String,
}

/// A recorded call of the hooked method `DoFinalByteInt`.
#[derive(Debug, Clone, PartialEq)]
pub struct DoFinalByteInt {
    pub class_name: String,
    pub method_name: String,
    pub hashcode: i64,
    pub arg_output: String,
    pub arg_output_offset: i64,
    pub ret: i64,
    pub algorithm: String,
    pub pid: i64,
    pub tid: i64,
    pub uid: i64,
    pub package_name: String,
    pub ts: u128,
    pub jtid: u64,
    pub importance: u64,
    pub stack_trace: String,
}

/// A recorded call of the hooked method `DoFinalByteIntInt`.
#[derive(Debug, Clone, PartialEq)]
pub struct DoFinalByteIntInt {
    pub class_name: String,
    pub method_name: String,
    pub hashcode: i64,
    pub arg_input: String,
    pub arg_input_offset: i64,
    pub arg_input_len: i64,
    pub ret: String,
    pub algorithm: String,
    pub pid: i64,
    pub tid: i64,
    pub uid: i64,
    pub package_name: String,
    pub ts: u128,
    pub jtid: u64,
    pub importance: u64,
    pub stack_trace: String,
}

/// A recorded call of the hooked method `DoFinalByteIntIntByte`.
#[derive(Debug, Clone, PartialEq)]
pub struct DoFinalByteIntIntByte {
    pub class_name: String,
    pub method_name: String,
    pub hashcode: i64,
    pub arg_input: String,
    pub arg_input_offset: i64,
    pub arg_input_len: i64,
    pub arg_output: String,
    pub ret: i64,
    pub algorithm: String,
    pub pid: i64,
    pub tid: i64,
    pub uid: i64,
    pub package_name: String,
    pub ts: u128,
    pub jtid: u64,
    pub importance: u64,
    pub stack_trace: String,
}

/// A recorded call of the hooked method `DoFinalByteIntIntByteInt`.
#[derive(Debug, Clone, PartialEq)]
pub struct DoFinalByteIntIntByteInt {
    pub class_name: String,
    pub method_name: String,
    pub hashcode: i64,
    pub arg_input: String,
    pub arg_input_offset: i64,
    pub arg_input_len: i64,
    pub arg_output: String,
    pub arg_output_offset: i64,
    pub ret: i64,
    pub algorithm: String,
    pub pid: i64,
    pub tid: i64,
    pub uid: i64,
    pub package_name: String,
    pub ts: u128,
    pub jtid: u64,
    pub importance: u64,
    pub stack_trace: String,
}

/// A recorded call of the hooked method `DoFinalByteBufferByteBuffer`.
#[derive(Debug, Clone, PartialEq)]
pub struct DoFinalByteBufferByteBuffer {
    pub class_name: String,
    pub method_name: String,
    pub hashcode: i64,
    pub arg_input: String,
    pub arg_output: String,
    pub ret: i64,
    pub algorithm: String,
    pub pid: i64,
    pub tid: i64,
    pub uid: i64,
    pub package_name: String,
    pub ts: u128,
    pub jtid: u64,
    pub importance: u64,
    pub stack_trace: String,
}

/// A recorded call of the hooked method `InitIntCertificate`.
#[derive(Debug, Clone, PartialEq)]
pub struct InitIntCertificate {
    pub class_name: String,
    pub method_name: String,
    pub hashcode: i64,
    pub arg_opcode: i64,
    pub arg_certificate: String,
    pub algorithm: String,
    pub pid: i64,
    pub tid: i64,
    pub uid: i64,
    pub package_name: String,
    pub ts: u128,
    pub jtid: u64,
    pub importance: u64,
    pub stack_trace: String,
}

/// A recorded call of the hooked method `InitIntKey`.
#[derive(Debug, Clone, PartialEq)]
pub struct InitIntKey {
    pub class_name: String,
    pub method_name: String,
    pub hashcode: i64,
    pub arg_opcode: i64,
    pub arg_key: String,
    pub algorithm: String,
    pub pid: i64,
    pub tid: i64,
    pub uid: i64,
    pub package_name: String,
    pub ts: u128,
    pub jtid: u64,
    pub importance: u64,
    pub stack_trace: String,
}

/// A recorded call of the hooked method `UpdateByte`.
#[derive(Debug, Clone, PartialEq)]
pub struct UpdateByte {
    pub class_name: String,
    pub method_name: String,
    pub hashcode: i64,
    pub arg_input: String,
    pub ret: String,
    pub algorithm: String,
    pub pid: i64,
    pub tid: i64,
    pub uid: i64,
    pub package_name: String,
    pub ts: u128,
    pub jtid: u64,
    pub importance: u64,
    pub stack_trace: String,
}

/// A recorded call of the hooked method `UpdateByteIntInt`.
#[derive(Debug, Clone, PartialEq)]
pub struct UpdateByteIntInt {
    pub class_name: String,
    pub method_name: String,
    pub hashcode: i64,
    pub arg_input: String,
    pub arg_input_offset: i64,
    pub arg_input_len: i64,
    pub ret: String,
    pub algorithm: String,
    pub pid: i64,
    pub tid: i64,
    pub uid: i64,
    pub package_name: String,
    pub ts: u128,
    pub jtid: u64,
    pub importance: u64,
    pub stack_trace: String,
}

/// A recorded call of the hooked method `UpdateByteIntIntByte`.
#[derive(Debug, Clone, PartialEq)]
pub struct UpdateByteIntIntByte {
    pub class_name: String,
    pub method_name: String,
    pub hashcode: i64,
    pub arg_input: String,
    pub arg_input_offset: i64,
    pub arg_input_len: i64,
    pub arg_output: String,
    pub ret: i64,
    pub algorithm: String,
    pub pid: i64,
    pub tid: i64,
    pub uid: i64,
    pub package_name: String,
    pub ts: u128,
    pub jtid: u64,
    pub importance: u64,
    pub stack_trace: String,
}

/// A recorded call of the hooked method `UpdateByteIntIntByteInt`.
#[derive(Debug, Clone, PartialEq)]
pub struct UpdateByteIntIntByteInt {
    pub class_name: String,
    pub method_name: String,
    pub hashcode: i64,
    pub arg_input: String,
    pub arg_input_offset: i64,
    pub arg_input_len: i64,
    pub arg_output: String,
    pub arg_output_offset: i64,
    pub ret: i64,
    pub algorithm: String,
    pub pid: i64,
    pub tid: i64,
    pub uid: i64,
    pub package_name: String,
    pub ts: u128,
    pub jtid: u64,
    pub importance: u64,
    pub stack_trace: String,
}

/// A recorded call of the hooked method `UpdateByteBufferByteBuffer`.
#[derive(Debug, Clone, PartialEq)]
pub struct UpdateByteBufferByteBuffer {
    pub class_name: String,
    pub method_name: String,
    pub hashcode: i64,
    pub arg_input: String,
    pub arg_output: String,
    pub ret: i64,
    pub algorithm: String,
    pub pid: i64,
    pub tid: i64,
    pub uid: i64,
    pub package_name: String,
    pub ts: u128,
    pub jtid: u64,
    pub importance: u64,
    pub stack_trace: String,
}

/// A recorded call of the hooked method `UpdateAADByte`.
#[derive(Debug, Clone, PartialEq)]
pub struct UpdateAADByte {
    pub class_name: String,
    pub method_name: String,
    pub hashcode: i64,
    pub arg_input: String,
    pub ret: String,
    pub algorithm: String,
    pub pid: i64,
    pub tid: i64,
    pub uid: i64,
    pub package_name: String,
    pub ts: u128,
    pub jtid: u64,
    pub importance: u64,
    pub stack_trace: String,
}

/// A recorded call of the hooked method `UpdateAADByteIntInt`.
#[derive(Debug, Clone, PartialEq)]
pub struct UpdateAADByteIntInt {
    pub class_name: String,
    pub method_name: String,
    pub hashcode: i64,
    pub arg_input: String,
    pub arg_input_offset: i64,
    pub arg_input_len: i64,
    pub ret: String,
    pub algorithm: String,
    pub pid: i64,
    pub tid: i64,
    pub uid: i64,
    pub package_name: String,
    pub ts: u128,
    pub jtid: u64,
    pub importance: u64,
    pub stack_trace: String,
}

/// A recorded call of the hooked method `UpdateAADByteBuffer`.
#[derive(Debug, Clone, PartialEq)]
pub struct UpdateAADByteBuffer {
    pub class_name: String,
    pub method_name: String,
    pub hashcode: i64,
    pub arg_src: String,
    pub ret: i64,
    pub algorithm: String,
    pub pid: i64,
    pub tid: i64,
    pub uid: i64,
    pub package_name: String,
    pub ts: u128,
    pub jtid: u64,
    pub importance: u64,
    pub stack_trace: String,
}

/// A recorded call of the hooked method `StartForeground`.
#[derive(Debug, Clone, PartialEq)]
pub struct StartForeground {
    pub class_name: String,
    pub method_name: String,
    pub hashcode: i64,
    pub id: i64,
    pub kind: i64,
    pub pid: i64,
    pub tid: i64,
    pub uid: i64,
    pub package_name: String,
    pub ts: u128,
    pub jtid: u64,
    pub importance: u64,
    pub stack_trace: String,
}

/// A recorded call of the hooked method `OnStartCommand`.
#[derive(Debug, Clone, PartialEq)]
pub struct OnStartCommand {
    pub class_name: String,
    pub method_name: String,
    pub hashcode: i64,
    pub action: String,
    pub component: String,
    pub data: String,
    pub extras: Vec<(String, String)>,
    pub intent_package: String,
    pub flags: i64,
    pub start_id: i64,
    pub pid: i64,
    pub tid: i64,
    pub uid: i64,
    pub package_name: String,
    pub ts: u128,
    pub jtid: u64,
    pub importance: u64,
    pub stack_trace: String,
}

/// A recorded call of the hooked method `OnBind`.
#[derive(Debug, Clone, PartialEq)]
pub struct OnBind {
    pub class_name: String,
    pub method_name: String,
    pub hashcode: i64,
    pub action: String,
    pub component: String,
    pub data: String,
    pub extras: Vec<(String, String)>,
    pub intent_package: String,
    pub pid: i64,
    pub tid: i64,
    pub uid: i64,
    pub package_name: String,
    pub ts: u128,
    pub jtid: u64,
    pub importance: u64,
    pub stack_trace: String,
}

/// A recorded call of the hooked method `SetImpl`.
#[derive(Debug, Clone, PartialEq)]
pub struct SetImpl {
    pub class_name: String,
    pub method_name: String,
    pub hashcode: i64,
    pub kind: i64,
    pub trigger_at_millis: i64,
    pub window_millis: i64,
    pub interval_millis: i64,
    pub flags: i64,
    pub operation_hashcode: i64,
    pub listener_class_name: String,
    pub listener_tag: String,
    pub alarm_clock_intent_hash_code: i64,
    pub alarm_clock_get_trigger_time: i64,
    pub pid: i64,
    pub tid: i64,
    pub uid: i64,
    pub package_name: String,
    pub ts: u128,
    pub jtid: u64,
    pub importance: u64,
    pub stack_trace: String,
}

/// A recorded call of the hooked method `SetAlarmClock`.
#[derive(Debug, Clone, PartialEq)]
pub struct SetAlarmClock {
    pub class_name: String,
    pub method_name: String,
    pub hashcode: i64,
    pub creator: String,
    pub pid: i64,
    pub tid: i64,
    pub uid: i64,
    pub package_name: String,
    pub ts: u128,
    pub jtid: u64,
    pub importance: u64,
    pub stack_trace: String,
}

/// A recorded call of the hooked method `PendingIntentGet`.
#[derive(Debug, Clone, PartialEq)]
pub struct PendingIntentGet {
    pub class_name: String,
    pub method_name: String,
    pub hashcode: i64,
    pub request_code: i64,
    pub action: String,
    pub component: String,
    pub data: String,
    pub extras: Vec<(String, String)>,
    pub intent_package: String,
    pub flags: i64,
    pub pid: i64,
    pub tid: i64,
    pub uid: i64,
    pub package_name: String,
    pub ts: u128,
    pub jtid: u64,
    pub importance: u64,
    pub stack_trace: String,
}

/// A recorded call of the hooked method `ScheduleInternal`.
#[derive(Debug, Clone, PartialEq)]
pub struct ScheduleInternal {
    pub class_name: String,
    pub method_name: String,
    pub hashcode: i64,
    pub job_id: i64,
    pub work_id: String,
    pub pid: i64,
    pub tid: i64,
    pub uid: i64,
    pub package_name: String,
    pub ts: u128,
    pub jtid: u64,
    pub importance: u64,
    pub stack_trace: String,
}

/// A recorded call of the hooked method `RequestWork`.
#[derive(Debug, Clone, PartialEq)]
pub struct RequestWork {
    pub class_name: String,
    pub method_name: String,
    pub hashcode: i64,
    pub work_id: String,
    pub pid: i64,
    pub tid: i64,
    pub uid: i64,
    pub package_name: String,
    pub ts: u128,
    pub jtid: u64,
    pub importance: u64,
    pub stack_trace: String,
}

/// A recorded call of the hooked method `DoWork`.
#[derive(Debug, Clone, PartialEq)]
pub struct DoWork {
    pub class_name: String,
    pub method_name: String,
    pub hashcode: i64,
    pub work_id: String,
    pub pid: i64,
    pub tid: i64,
    pub uid: i64,
    pub package_name: String,
    pub ts: u128,
    pub jtid: u64,
    pub importance: u64,
    pub stack_trace: String,
}

/// A recorded call of the hooked method `GenericHook`.
#[derive(Debug, Clone, PartialEq)]
pub struct GenericHook {
    pub class_name: String,
    pub method_name: String,
    pub hashcode: i64,
    pub pid: i64,
    pub tid: i64,
    pub uid: i64,
    pub package_name: String,
    pub ts: u128,
    pub jtid: u64,
    pub importance: u64,
    pub stack_trace: String,
}

/// A recorded call of the hooked method `RegisterReceiver`.
#[derive(Debug, Clone, PartialEq)]
pub struct RegisterReceiver {
    pub class_name: String,
    pub method_name: String,
    pub hashcode: i64,
    pub register_class: String,
    pub actions: Vec<String>,
    pub pid: i64,
    pub tid: i64,
    pub uid: i64,
    pub package_name: String,
    pub ts: u128,
    pub jtid: u64,
    pub importance: u64,
    pub stack_trace: String,
}

/// A recorded call of the hooked method `DeviceID`.
#[derive(Debug, Clone, PartialEq)]
pub struct DeviceID {
    pub class_name: String,
    pub method_name: String,
    pub hashcode: i64,
    pub device_id: String,
    pub pid: i64,
    pub tid: i64,
    pub uid: i64,
    pub package_name: String,
    pub ts: u128,
    pub jtid: u64,
    pub importance: u64,
    pub stack_trace: String,
}

/// A recorded call of the hooked method `StartThreadHook`.
#[derive(Debug, Clone, PartialEq)]
pub struct StartThreadHook {
    pub class_name: String,
    pub method_name: String,
    pub hashcode: i64,
    pub new_jtid: u64,
    pub pid: i64,
    pub tid: i64,
    pub uid: i64,
    pub package_name: String,
    pub ts: u128,
    pub jtid: u64,
    pub importance: u64,
    pub stack_trace: String,
}

/// A canary value written by the app under test, with the call site that wrote it.
#[derive(Debug, Clone, PartialEq)]
pub struct Canary {
    pub class_name: String,
    pub method_name: String,
    pub hashcode: i64,
    pub canary: String,
    pub target: String,
    pub pid: i64,
    pub tid: i64,
    pub uid: i64,
    pub package_name: String,
    pub ts: u128,
    pub jtid: u64,
    pub importance: u64,
    pub stack_trace: String,
}

/// A socket opened by the app, with its local and remote address text.
#[derive(Debug, Clone, PartialEq)]
pub struct SocketHook {
    pub class_name: String,
    pub method_name: String,
    pub hashcode: i64,
    pub local_addr: String,
    pub remote_addr: String,
    pub canary: String,
    pub pid: i64,
    pub tid: i64,
    pub uid: i64,
    pub package_name: String,
    pub ts: u128,
    pub jtid: u64,
    pub importance: u64,
    pub stack_trace: String,
}

/// A recorded call of the hooked method `ConnectHook`.
#[derive(Debug, Clone, PartialEq)]
pub struct ConnectHook {
    pub class_name: String,
    pub method_name: String,
    pub hashcode: i64,
    pub local_addr: String,
    pub remote_addr: String,
    pub pid: i64,
    pub tid: i64,
    pub uid: i64,
    pub package_name: String,
    pub ts: u128,
    pub jtid: u64,
    pub importance: u64,
    pub stack_trace: String,
}

/// Every event kind that the hooks and the kernel tracer record.
#[derive(Debug, Clone, PartialEq)]
pub enum Events {
    JobScheduler(JobScheduler),
    OnStartJob(OnStartJob),
    Intent(Intent),
    OnReceiveHook(OnReceiveHook),
    OnCreate(OnCreate),
    GetBroadcast(GetBroadcast),
    DoFinal(DoFinal),
    DoFinalByte(DoFinalByte),
    DoFinalByteInt(DoFinalByteInt),
    DoFinalByteIntInt(DoFinalByteIntInt),
    DoFinalByteIntIntByte(DoFinalByteIntIntByte),
    DoFinalByteIntIntByteInt(DoFinalByteIntIntByteInt),
    DoFinalByteBufferByteBuffer(DoFinalByteBufferByteBuffer),
    InitIntCertificate(InitIntCertificate),
    InitIntKey(InitIntKey),
    UpdateByte(UpdateByte),
    UpdateByteIntInt(UpdateByteIntInt),
    UpdateByteIntIntByte(UpdateByteIntIntByte),
    UpdateByteIntIntByteInt(UpdateByteIntIntByteInt),
    UpdateByteBufferByteBuffer(UpdateByteBufferByteBuffer),
    UpdateAADByte(UpdateAADByte),
    UpdateAADByteIntInt(UpdateAADByteIntInt),
    UpdateAADByteBuffer(UpdateAADByteBuffer),
    StartForeground(StartForeground),
    OnStartCommand(OnStartCommand),
    OnBind(OnBind),
    SetImpl(SetImpl),
    SetAlarmClock(SetAlarmClock),
    PendingIntentGet(PendingIntentGet),
    ScheduleInternal(ScheduleInternal),
    RequestWork(RequestWork),
    DoWork(DoWork),
    GenericHook(GenericHook),
    RegisterReceiver(RegisterReceiver),
    DeviceID(DeviceID),
    Canary(Canary),
    StartThreadHook(StartThreadHook),
    SchedProcessFork(SchedProcessFork),
    SchedProcessExit(TaskInfo),
    TaskNewtask(TaskInfo),
    SocketAddrV6(SocketAddrV6),
    SocketAddrV4(SocketAddrV4),
    SocketHook(SocketHook),
    ConnectHook(ConnectHook),
    Other(String),
}

impl Events {
    /// The user id of the app that the event belongs to (0 for `Other`).
    pub open spec fn spec_uid(&self) -> i64 {
        match self {
            Events::JobScheduler(e) => e.uid,
            Events::OnStartJob(e) => e.uid,
            Events::Intent(e) => e.uid,
            Events::OnReceiveHook(e) => e.uid,
            Events::OnCreate(e) => e.uid,
            Events::GetBroadcast(e) => e.uid,
            Events::DoFinal(e) => e.uid,
            Events::DoFinalByte(e) => e.uid,
            Events::DoFinalByteInt(e) => e.uid,
            Events::DoFinalByteIntInt(e) => e.uid,
            Events::DoFinalByteIntIntByte(e) => e.uid,
            Events::DoFinalByteIntIntByteInt(e) => e.uid,
            Events::DoFinalByteBufferByteBuffer(e) => e.uid,
            Events::InitIntCertificate(e) => e.uid,
            Events::InitIntKey(e) => e.uid,
            Events::UpdateByte(e) => e.uid,
            Events::UpdateByteIntInt(e) => e.uid,
            Events::UpdateByteIntIntByte(e) => e.uid,
            Events::UpdateByteIntIntByteInt(e) => e.uid,
            Events::UpdateByteBufferByteBuffer(e) => e.uid,
            Events::UpdateAADByte(e) => e.uid,
            Events::UpdateAADByteIntInt(e) => e.uid,
            Events::UpdateAADByteBuffer(e) => e.uid,
            Events::StartForeground(e) => e.uid,
            Events::OnStartCommand(e) => e.uid,
            Events::OnBind(e) => e.uid,
            Events::SetImpl(e) => e.uid,
            Events::SetAlarmClock(e) => e.uid,
            Events::PendingIntentGet(e) => e.uid,
            Events::ScheduleInternal(e) => e.uid,
            Events::RequestWork(e) => e.uid,
            Events::DoWork(e) => e.uid,
            Events::GenericHook(e) => e.uid,
            Events::RegisterReceiver(e) => e.uid,
            Events::DeviceID(e) => e.uid,
            Events::Canary(e) => e.uid,
            Events::StartThreadHook(e) => e.uid,
            Events::SchedProcessFork(e) => e.uid,
            Events::SchedProcessExit(e) => e.uid,
            Events::TaskNewtask(e) => e.uid,
            Events::SocketAddrV6(e) => e.uid,
            Events::SocketAddrV4(e) => e.uid,
            Events::SocketHook(e) => e.uid,
            Events::ConnectHook(e) => e.uid,
            Events::Other(_) => 0,
        }
    }

    /// The process and thread ids of the event.
    pub open spec fn spec_ptid(&self) -> (i64, i64) {
        match self {
            Events::JobScheduler(e) => (e.pid, e.tid),
            Events::OnStartJob(e) => (e.pid, e.tid),
            Events::Intent(e) => (e.pid, e.tid),
            Events::OnReceiveHook(e) => (e.pid, e.tid),
            Events::OnCreate(e) => (e.pid, e.tid),
            Events::GetBroadcast(e) => (e.pid, e.tid),
            Events::DoFinal(e) => (e.pid, e.tid),
            Events::DoFinalByte(e) => (e.pid, e.tid),
            Events::DoFinalByteInt(e) => (e.pid, e.tid),
            Events::DoFinalByteIntInt(e) => (e.pid, e.tid),
            Events::DoFinalByteIntIntByte(e) => (e.pid, e.tid),
            Events::DoFinalByteIntIntByteInt(e) => (e.pid, e.tid),
            Events::DoFinalByteBufferByteBuffer(e) => (e.pid, e.tid),
            Events::InitIntCertificate(e) => (e.pid, e.tid),
            Events::InitIntKey(e) => (e.pid, e.tid),
            Events::UpdateByte(e) => (e.pid, e.tid),
            Events::UpdateByteIntInt(e) => (e.pid, e.tid),
            Events::UpdateByteIntIntByte(e) => (e.pid, e.tid),
            Events::UpdateByteIntIntByteInt(e) => (e.pid, e.tid),
            Events::UpdateByteBufferByteBuffer(e) => (e.pid, e.tid),
            Events::UpdateAADByte(e) => (e.pid, e.tid),
            Events::UpdateAADByteIntInt(e) => (e.pid, e.tid),
            Events::UpdateAADByteBuffer(e) => (e.pid, e.tid),
            Events::StartForeground(e) => (e.pid, e.tid),
            Events::OnStartCommand(e) => (e.pid, e.tid),
            Events::OnBind(e) => (e.pid, e.tid),
            Events::SetImpl(e) => (e.pid, e.tid),
            Events::SetAlarmClock(e) => (e.pid, e.tid),
            Events::PendingIntentGet(e) => (e.pid, e.tid),
            Events::ScheduleInternal(e) => (e.pid, e.tid),
            Events::RequestWork(e) => (e.pid, e.tid),
            Events::DoWork(e) => (e.pid, e.tid),
            Events::GenericHook(e) => (e.pid, e.tid),
            Events::RegisterReceiver(e) => (e.pid, e.tid),
            Events::DeviceID(e) => (e.pid, e.tid),
            Events::Canary(e) => (e.pid, e.tid),
            Events::StartThreadHook(e) => (e.pid, e.tid),
            Events::SchedProcessFork(e) => (e.parent_pid, e.parent_pid),
            Events::SchedProcessExit(e) => (e.parent_tid, e.parent_tid),
            Events::TaskNewtask(e) => (e.parent_pid, e.parent_tid),
            Events::SocketAddrV6(e) => (e.pid, e.tid),
            Events::SocketAddrV4(e) => (e.pid, e.tid),
            Events::SocketHook(e) => (e.pid, e.tid),
            Events::ConnectHook(e) => (e.pid, e.tid),
            Events::Other(_) => (0, 0),
        }
    }

    /// The time at which the event was recorded (0 for `Other`).
    pub open spec fn spec_timestamp(&self) -> u128 {
        match self {
            Events::JobScheduler(e) => e.ts,
            Events::OnStartJob(e) => e.ts,
            Events::Intent(e) => e.ts,
            Events::OnReceiveHook(e) => e.ts,
            Events::OnCreate(e) => e.ts,
            Events::GetBroadcast(e) => e.ts,
            Events::DoFinal(e) => e.ts,
            Events::DoFinalByte(e) => e.ts,
            Events::DoFinalByteInt(e) => e.ts,
            Events::DoFinalByteIntInt(e) => e.ts,
            Events::DoFinalByteIntIntByte(e) => e.ts,
            Events::DoFinalByteIntIntByteInt(e) => e.ts,
            Events::DoFinalByteBufferByteBuffer(e) => e.ts,
            Events::InitIntCertificate(e) => e.ts,
            Events::InitIntKey(e) => e.ts,
            Events::UpdateByte(e) => e.ts,
            Events::UpdateByteIntInt(e) => e.ts,
            Events::UpdateByteIntIntByte(e) => e.ts,
            Events::UpdateByteIntIntByteInt(e) => e.ts,
            Events::UpdateByteBufferByteBuffer(e) => e.ts,
            Events::UpdateAADByte(e) => e.ts,
            Events::UpdateAADByteIntInt(e) => e.ts,
            Events::UpdateAADByteBuffer(e) => e.ts,
            Events::StartForeground(e) => e.ts,
            Events::OnStartCommand(e) => e.ts,
            Events::OnBind(e) => e.ts,
            Events::SetImpl(e) => e.ts,
            Events::SetAlarmClock(e) => e.ts,
            Events::PendingIntentGet(e) => e.ts,
            Events::ScheduleInternal(e) => e.ts,
            Events::RequestWork(e) => e.ts,
            Events::DoWork(e) => e.ts,
            Events::GenericHook(e) => e.ts,
            Events::RegisterReceiver(e) => e.ts,
            Events::DeviceID(e) => e.ts,
            Events::Canary(e) => e.ts,
            Events::StartThreadHook(e) => e.ts,
            Events::SchedProcessFork(e) => e.ts,
            Events::SchedProcessExit(e) => e.ts,
            Events::TaskNewtask(e) => e.ts,
            Events::SocketAddrV6(e) => e.ts,
            Events::SocketAddrV4(e) => e.ts,
            Events::SocketHook(e) => e.ts,
            Events::ConnectHook(e) => e.ts,
            Events::Other(_) => 0,
        }
    }

    /// The importance of the app's process when the event was recorded;
    /// `u64::MAX` for the kernel tracer's events and for `Other`.
    pub open spec fn spec_importance(&self) -> u64 {
        match self {
            Events::JobScheduler(e) => e.importance,
            Events::OnStartJob(e) => e.importance,
            Events::Intent(e) => e.importance,
            Events::OnReceiveHook(e) => e.importance,
            Events::OnCreate(e) => e.importance,
            Events::GetBroadcast(e) => e.importance,
            Events::DoFinal(e) => e.importance,
            Events::DoFinalByte(e) => e.importance,
            Events::DoFinalByteInt(e) => e.importance,
            Events::DoFinalByteIntInt(e) => e.importance,
            Events::DoFinalByteIntIntByte(e) => e.importance,
            Events::DoFinalByteIntIntByteInt(e) => e.importance,
            Events::DoFinalByteBufferByteBuffer(e) => e.importance,
            Events::InitIntCertificate(e) => e.importance,
            Events::InitIntKey(e) => e.importance,
            Events::UpdateByte(e) => e.importance,
            Events::UpdateByteIntInt(e) => e.importance,
            Events::UpdateByteIntIntByte(e) => e.importance,
            Events::UpdateByteIntIntByteInt(e) => e.importance,
            Events::UpdateByteBufferByteBuffer(e) => e.importance,
            Events::UpdateAADByte(e) => e.importance,
            Events::UpdateAADByteIntInt(e) => e.importance,
            Events::UpdateAADByteBuffer(e) => e.importance,
            Events::StartForeground(e) => e.importance,
            Events::OnStartCommand(e) => e.importance,
            Events::OnBind(e) => e.importance,
            Events::SetImpl(e) => e.importance,
            Events::SetAlarmClock(e) => e.importance,
            Events::PendingIntentGet(e) => e.importance,
            Events::ScheduleInternal(e) => e.importance,
            Events::RequestWork(e) => e.importance,
            Events::DoWork(e) => e.importance,
            Events::GenericHook(e) => e.importance,
            Events::RegisterReceiver(e) => e.importance,
            Events::DeviceID(e) => e.importance,
            Events::Canary(e) => e.importance,
            Events::StartThreadHook(e) => e.importance,
            Events::SchedProcessFork(_) => u64::MAX,
            Events::SchedProcessExit(_) => u64::MAX,
            Events::TaskNewtask(_) => u64::MAX,
            Events::SocketAddrV6(_) => u64::MAX,
            Events::SocketAddrV4(_) => u64::MAX,
            Events::SocketHook(e) => e.importance,
            Events::ConnectHook(e) => e.importance,
            Events::Other(_) => u64::MAX,
        }
    }

    /// The encoded stack trace that the event carries; the kernel tracer's
    /// events and `Other` carry none.
    pub open spec fn spec_encoded_stack_trace(&self) -> Option<Seq<char>> {
        match self {
            Events::JobScheduler(e) => Some(e.stack_trace@),
            Events::OnStartJob(e) => Some(e.stack_trace@),
            Events::Intent(e) => Some(e.stack_trace@),
            Events::OnReceiveHook(e) => Some(e.stack_trace@),
            Events::OnCreate(e) => Some(e.stack_trace@),
            Events::GetBroadcast(e) => Some(e.stack_trace@),
            Events::DoFinal(e) => Some(e.stack_trace@),
            Events::DoFinalByte(e) => Some(e.stack_trace@),
            Events::DoFinalByteInt(e) => Some(e.stack_trace@),
            Events::DoFinalByteIntInt(e) => Some(e.stack_trace@),
            Events::DoFinalByteIntIntByte(e) => Some(e.stack_trace@),
            Events::DoFinalByteIntIntByteInt(e) => Some(e.stack_trace@),
            Events::DoFinalByteBufferByteBuffer(e) => Some(e.stack_trace@),
            Events::InitIntCertificate(e) => Some(e.stack_trace@),
            Events::InitIntKey(e) => Some(e.stack_trace@),
            Events::UpdateByte(e) => Some(e.stack_trace@),
            Events::UpdateByteIntInt(e) => Some(e.stack_trace@),
            Events::UpdateByteIntIntByte(e) => Some(e.stack_trace@),
            Events::UpdateByteIntIntByteInt(e) => Some(e.stack_trace@),
            Events::UpdateByteBufferByteBuffer(e) => Some(e.stack_trace@),
            Events::UpdateAADByte(e) => Some(e.stack_trace@),
            Events::UpdateAADByteIntInt(e) => Some(e.stack_trace@),
            Events::UpdateAADByteBuffer(e) => Some(e.stack_trace@),
            Events::StartForeground(e) => Some(e.stack_trace@),
            Events::OnStartCommand(e) => Some(e.stack_trace@),
            Events::OnBind(e) => Some(e.stack_trace@),
            Events::SetImpl(e) => Some(e.stack_trace@),
            Events::SetAlarmClock(e) => Some(e.stack_trace@),
            Events::PendingIntentGet(e) => Some(e.stack_trace@),
            Events::ScheduleInternal(e) => Some(e.stack_trace@),
            Events::RequestWork(e) => Some(e.stack_trace@),
            Events::DoWork(e) => Some(e.stack_trace@),
            Events::GenericHook(e) => Some(e.stack_trace@),
            Events::RegisterReceiver(e) => Some(e.stack_trace@),
            Events::DeviceID(e) => Some(e.stack_trace@),
            Events::Canary(e) => Some(e.stack_trace@),
            Events::StartThreadHook(e) => Some(e.stack_trace@),
            Events::SchedProcessFork(_) => None,
            Events::SchedProcessExit(_) => None,
            Events::TaskNewtask(_) => None,
            Events::SocketAddrV6(_) => None,
            Events::SocketAddrV4(_) => None,
            Events::SocketHook(e) => Some(e.stack_trace@),
            Events::ConnectHook(e) => Some(e.stack_trace@),
            Events::Other(_) => None,
        }
    }

    pub fn get_uid(&self) -> (r: i64)
        ensures
            r == self.spec_uid(),
    {
        match self {
            Events::JobScheduler(e) => e.uid,
            Events::OnStartJob(e) => e.uid,
            Events::Intent(e) => e.uid,
            Events::OnReceiveHook(e) => e.uid,
            Events::OnCreate(e) => e.uid,
            Events::GetBroadcast(e) => e.uid,
            Events::DoFinal(e) => e.uid,
            Events::DoFinalByte(e) => e.uid,
            Events::DoFinalByteInt(e) => e.uid,
            Events::DoFinalByteIntInt(e) => e.uid,
            Events::DoFinalByteIntIntByte(e) => e.uid,
            Events::DoFinalByteIntIntByteInt(e) => e.uid,
            Events::DoFinalByteBufferByteBuffer(e) => e.uid,
            Events::InitIntCertificate(e) => e.uid,
            Events::InitIntKey(e) => e.uid,
            Events::UpdateByte(e) => e.uid,
            Events::UpdateByteIntInt(e) => e.uid,
            Events::UpdateByteIntIntByte(e) => e.uid,
            Events::UpdateByteIntIntByteInt(e) => e.uid,
            Events::UpdateByteBufferByteBuffer(e) => e.uid,
            Events::UpdateAADByte(e) => e.uid,
            Events::UpdateAADByteIntInt(e) => e.uid,
            Events::UpdateAADByteBuffer(e) => e.uid,
            Events::StartForeground(e) => e.uid,
            Events::OnStartCommand(e) => e.uid,
            Events::OnBind(e) => e.uid,
            Events::SetImpl(e) => e.uid,
            Events::SetAlarmClock(e) => e.uid,
            Events::PendingIntentGet(e) => e.uid,
            Events::ScheduleInternal(e) => e.uid,
            Events::RequestWork(e) => e.uid,
            Events::DoWork(e) => e.uid,
            Events::GenericHook(e) => e.uid,
            Events::RegisterReceiver(e) => e.uid,
            Events::DeviceID(e) => e.uid,
            Events::Canary(e) => e.uid,
            Events::StartThreadHook(e) => e.uid,
            Events::SchedProcessFork(e) => e.uid,
            Events::SchedProcessExit(e) => e.uid,
            Events::TaskNewtask(e) => e.uid,
            Events::SocketAddrV6(e) => e.uid,
            Events::SocketAddrV4(e) => e.uid,
            Events::SocketHook(e) => e.uid,
            Events::ConnectHook(e) => e.uid,
            Events::Other(_) => 0,
        }
    }

    /// The stack trace that the event carries, as a value that decodes it.
    pub fn get_stacktrace(&self) -> (r: EventStackTrace<'_>)
        ensures
            r.spec_encoded() == self.spec_encoded_stack_trace(),
    {
        let encoded = match self {
            Events::JobScheduler(e) => Some(e.stack_trace.as_str()),
            Events::OnStartJob(e) => Some(e.stack_trace.as_str()),
            Events::Intent(e) => Some(e.stack_trace.as_str()),
            Events::OnReceiveHook(e) => Some(e.stack_trace.as_str()),
            Events::OnCreate(e) => Some(e.stack_trace.as_str()),
            Events::GetBroadcast(e) => Some(e.stack_trace.as_str()),
            Events::DoFinal(e) => Some(e.stack_trace.as_str()),
            Events::DoFinalByte(e) => Some(e.stack_trace.as_str()),
            Events::DoFinalByteInt(e) => Some(e.stack_trace.as_str()),
            Events::DoFinalByteIntInt(e) => Some(e.stack_trace.as_str()),
            Events::DoFinalByteIntIntByte(e) => Some(e.stack_trace.as_str()),
            Events::DoFinalByteIntIntByteInt(e) => Some(e.stack_trace.as_str()),
            Events::DoFinalByteBufferByteBuffer(e) => Some(e.stack_trace.as_str()),
            Events::InitIntCertificate(e) => Some(e.stack_trace.as_str()),
            Events::InitIntKey(e) => Some(e.stack_trace.as_str()),
            Events::UpdateByte(e) => Some(e.stack_trace.as_str()),
            Events::UpdateByteIntInt(e) => Some(e.stack_trace.as_str()),
            Events::UpdateByteIntIntByte(e) => Some(e.stack_trace.as_str()),
            Events::UpdateByteIntIntByteInt(e) => Some(e.stack_trace.as_str()),
            Events::UpdateByteBufferByteBuffer(e) => Some(e.stack_trace.as_str()),
            Events::UpdateAADByte(e) => Some(e.stack_trace.as_str()),
            Events::UpdateAADByteIntInt(e) => Some(e.stack_trace.as_str()),
            Events::UpdateAADByteBuffer(e) => Some(e.stack_trace.as_str()),
            Events::StartForeground(e) => Some(e.stack_trace.as_str()),
            Events::OnStartCommand(e) => Some(e.stack_trace.as_str()),
            Events::OnBind(e) => Some(e.stack_trace.as_str()),
            Events::SetImpl(e) => Some(e.stack_trace.as_str()),
            Events::SetAlarmClock(e) => Some(e.stack_trace.as_str()),
            Events::PendingIntentGet(e) => Some(e.stack_trace.as_str()),
            Events::ScheduleInternal(e) => Some(e.stack_trace.as_str()),
            Events::RequestWork(e) => Some(e.stack_trace.as_str()),
            Events::DoWork(e) => Some(e.stack_trace.as_str()),
            Events::GenericHook(e) => Some(e.stack_trace.as_str()),
            Events::RegisterReceiver(e) => Some(e.stack_trace.as_str()),
            Events::DeviceID(e) => Some(e.stack_trace.as_str()),
            Events::Canary(e) => Some(e.stack_trace.as_str()),
            Events::StartThreadHook(e) => Some(e.stack_trace.as_str()),
            Events::SchedProcessFork(_) => None,
            Events::SchedProcessExit(_) => None,
            Events::TaskNewtask(_) => None,
            Events::SocketAddrV6(_) => None,
            Events::SocketAddrV4(_) => None,
            Events::SocketHook(e) => Some(e.stack_trace.as_str()),
            Events::ConnectHook(e) => Some(e.stack_trace.as_str()),
            Events::Other(_) => None,
        };
        EventStackTrace { encoded }
    }

    pub fn get_ptid(&self) -> (r: (i64, i64))
        ensures
            r == self.spec_ptid(),
    {
        match self {
            Events::JobScheduler(e) => (e.pid, e.tid),
            Events::OnStartJob(e) => (e.pid, e.tid),
            Events::Intent(e) => (e.pid, e.tid),
            Events::OnReceiveHook(e) => (e.pid, e.tid),
            Events::OnCreate(e) => (e.pid, e.tid),
            Events::GetBroadcast(e) => (e.pid, e.tid),
            Events::DoFinal(e) => (e.pid, e.tid),
            Events::DoFinalByte(e) => (e.pid, e.tid),
            Events::DoFinalByteInt(e) => (e.pid, e.tid),
            Events::DoFinalByteIntInt(e) => (e.pid, e.tid),
            Events::DoFinalByteIntIntByte(e) => (e.pid, e.tid),
            Events::DoFinalByteIntIntByteInt(e) => (e.pid, e.tid),
            Events::DoFinalByteBufferByteBuffer(e) => (e.pid, e.tid),
            Events::InitIntCertificate(e) => (e.pid, e.tid),
            Events::InitIntKey(e) => (e.pid, e.tid),
            Events::UpdateByte(e) => (e.pid, e.tid),
            Events::UpdateByteIntInt(e) => (e.pid, e.tid),
            Events::UpdateByteIntIntByte(e) => (e.pid, e.tid),
            Events::UpdateByteIntIntByteInt(e) => (e.pid, e.tid),
            Events::UpdateByteBufferByteBuffer(e) => (e.pid, e.tid),
            Events::UpdateAADByte(e) => (e.pid, e.tid),
            Events::UpdateAADByteIntInt(e) => (e.pid, e.tid),
            Events::UpdateAADByteBuffer(e) => (e.pid, e.tid),
            Events::StartForeground(e) => (e.pid, e.tid),
            Events::OnStartCommand(e) => (e.pid, e.tid),
            Events::OnBind(e) => (e.pid, e.tid),
            Events::SetImpl(e) => (e.pid, e.tid),
            Events::SetAlarmClock(e) => (e.pid, e.tid),
            Events::PendingIntentGet(e) => (e.pid, e.tid),
            Events::ScheduleInternal(e) => (e.pid, e.tid),
            Events::RequestWork(e) => (e.pid, e.tid),
            Events::DoWork(e) => (e.pid, e.tid),
            Events::GenericHook(e) => (e.pid, e.tid),
            Events::RegisterReceiver(e) => (e.pid, e.tid),
            Events::DeviceID(e) => (e.pid, e.tid),
            Events::Canary(e) => (e.pid, e.tid),
            Events::StartThreadHook(e) => (e.pid, e.tid),
            Events::SchedProcessFork(e) => (e.parent_pid, e.parent_pid),
            Events::SchedProcessExit(e) => (e.parent_tid, e.parent_tid),
            Events::TaskNewtask(e) => (e.parent_pid, e.parent_tid),
            Events::SocketAddrV6(e) => (e.pid, e.tid),
            Events::SocketAddrV4(e) => (e.pid, e.tid),
            Events::SocketHook(e) => (e.pid, e.tid),
            Events::ConnectHook(e) => (e.pid, e.tid),
            Events::Other(_) => (0, 0),
        }
    }

    pub fn timestamp(&self) -> (r: u128)
        ensures
            r == self.spec_timestamp(),
    {
        match self {
            Events::JobScheduler(e) => e.ts,
            Events::OnStartJob(e) => e.ts,
            Events::Intent(e) => e.ts,
            Events::OnReceiveHook(e) => e.ts,
            Events::OnCreate(e) => e.ts,
            Events::GetBroadcast(e) => e.ts,
            Events::DoFinal(e) => e.ts,
            Events::DoFinalByte(e) => e.ts,
            Events::DoFinalByteInt(e) => e.ts,
            Events::DoFinalByteIntInt(e) => e.ts,
            Events::DoFinalByteIntIntByte(e) => e.ts,
            Events::DoFinalByteIntIntByteInt(e) => e.ts,
            Events::DoFinalByteBufferByteBuffer(e) => e.ts,
            Events::InitIntCertificate(e) => e.ts,
            Events::InitIntKey(e) => e.ts,
            Events::UpdateByte(e) => e.ts,
            Events::UpdateByteIntInt(e) => e.ts,
            Events::UpdateByteIntIntByte(e) => e.ts,
            Events::UpdateByteIntIntByteInt(e) => e.ts,
            Events::UpdateByteBufferByteBuffer(e) => e.ts,
            Events::UpdateAADByte(e) => e.ts,
            Events::UpdateAADByteIntInt(e) => e.ts,
            Events::UpdateAADByteBuffer(e) => e.ts,
            Events::StartForeground(e) => e.ts,
            Events::OnStartCommand(e) => e.ts,
            Events::OnBind(e) => e.ts,
            Events::SetImpl(e) => e.ts,
            Events::SetAlarmClock(e) => e.ts,
            Events::PendingIntentGet(e) => e.ts,
            Events::ScheduleInternal(e) => e.ts,
            Events::RequestWork(e) => e.ts,
            Events::DoWork(e) => e.ts,
            Events::GenericHook(e) => e.ts,
            Events::RegisterReceiver(e) => e.ts,
            Events::DeviceID(e) => e.ts,
            Events::Canary(e) => e.ts,
            Events::StartThreadHook(e) => e.ts,
            Events::SchedProcessFork(e) => e.ts,
            Events::SchedProcessExit(e) => e.ts,
            Events::TaskNewtask(e) => e.ts,
            Events::SocketAddrV6(e) => e.ts,
            Events::SocketAddrV4(e) => e.ts,
            Events::SocketHook(e) => e.ts,
            Events::ConnectHook(e) => e.ts,
            Events::Other(_) => 0,
        }
    }

    pub fn importance(&self) -> (r: u64)
        ensures
            r == self.spec_importance(),
    {
        match self {
            Events::JobScheduler(e) => e.importance,
            Events::OnStartJob(e) => e.importance,
            Events::Intent(e) => e.importance,
            Events::OnReceiveHook(e) => e.importance,
            Events::OnCreate(e) => e.importance,
            Events::GetBroadcast(e) => e.importance,
            Events::DoFinal(e) => e.importance,
            Events::DoFinalByte(e) => e.importance,
            Events::DoFinalByteInt(e) => e.importance,
            Events::DoFinalByteIntInt(e) => e.importance,
            Events::DoFinalByteIntIntByte(e) => e.importance,
            Events::DoFinalByteIntIntByteInt(e) => e.importance,
            Events::DoFinalByteBufferByteBuffer(e) => e.importance,
            Events::InitIntCertificate(e) => e.importance,
            Events::InitIntKey(e) => e.importance,
            Events::UpdateByte(e) => e.importance,
            Events::UpdateByteIntInt(e) => e.importance,
            Events::UpdateByteIntIntByte(e) => e.importance,
            Events::UpdateByteIntIntByteInt(e) => e.importance,
            Events::UpdateByteBufferByteBuffer(e) => e.importance,
            Events::UpdateAADByte(e) => e.importance,
            Events::UpdateAADByteIntInt(e) => e.importance,
            Events::UpdateAADByteBuffer(e) => e.importance,
            Events::StartForeground(e) => e.importance,
            Events::OnStartCommand(e) => e.importance,
            Events::OnBind(e) => e.importance,
            Events::SetImpl(e) => e.importance,
            Events::SetAlarmClock(e) => e.importance,
            Events::PendingIntentGet(e) => e.importance,
            Events::ScheduleInternal(e) => e.importance,
            Events::RequestWork(e) => e.importance,
            Events::DoWork(e) => e.importance,
            Events::GenericHook(e) => e.importance,
            Events::RegisterReceiver(e) => e.importance,
            Events::DeviceID(e) => e.importance,
            Events::Canary(e) => e.importance,
            Events::StartThreadHook(e) => e.importance,
            Events::SchedProcessFork(_) => u64::MAX,
            Events::SchedProcessExit(_) => u64::MAX,
            Events::TaskNewtask(_) => u64::MAX,
            Events::SocketAddrV6(_) => u64::MAX,
            Events::SocketAddrV4(_) => u64::MAX,
            Events::SocketHook(e) => e.importance,
            Events::ConnectHook(e) => e.importance,
            Events::Other(_) => u64::MAX,
        }
    }
}

/// The stack trace that an event carries, still encoded.
pub struct EventStackTrace<'a> {
    pub encoded: Option<&'a str>,
}

impl<'a> EventStackTrace<'a> {
    pub open spec fn spec_encoded(&self) -> Option<Seq<char>> {
        match self.encoded {
            Some(s) => Some(s@),
            None => None,
        }
    }
}

/// The lines of an encoded stack trace: base64 text of a gzip stream of UTF-8
/// text; `None` where any of the three steps fails.
pub open spec fn decoded_stack_trace(encoded: Option<Seq<char>>) -> Option<Seq<Seq<char>>> {
    match encoded {
        None => None,
        Some(text) => match base64_decoded(text) {
            None => None,
            Some(bytes) => {
                let (plain, ok) = gzip_decoded(bytes);
                if ok && valid_utf8(plain) {
                    Some(lines_spec(decode_utf8(plain)))
                } else {
                    None
                }
            },
        },
    }
}

/// The pieces of a `StackTracer_` line that name its canary, pid and tid.
pub open spec fn canary_fields(pieces: Seq<Seq<char>>) -> Seq<Seq<char>> {
    pieces.filter(|p: Seq<char>| p.len() > 0 && p != "StackTracer"@)
}

/// The canary (if named), pid and tid that a stack trace line of the form
/// `StackTracer_[..._]<canary>_<pid>_<tid>.<rest>` names.
pub open spec fn canary_info_of_line(line: Seq<char>) -> Option<(Option<Seq<char>>, u32, u32)> {
    if !"StackTracer_"@.is_prefix_of(line) {
        None
    } else {
        match split_once_spec(line, '.') {
            None => None,
            Some((head, _)) => {
                let v = canary_fields(split_spec(head, '_'));
                if v.len() == 0 {
                    None
                } else {
                    match unsigned_in_range(v.last(), u32::MAX as int) {
                        None => None,
                        Some(tid) => {
                            let v1 = v.drop_last();
                            if v1.len() == 0 {
                                None
                            } else {
                                match unsigned_in_range(v1.last(), u32::MAX as int) {
                                    None => None,
                                    Some(pid) => {
                                        let v2 = v1.drop_last();
                                        let canary = if v2.len() > 0 {
                                            Some(v2.last())
                                        } else {
                                            None
                                        };
                                        Some((canary, pid as u32, tid as u32))
                                    },
                                }
                            }
                        },
                    }
                }
            },
        }
    }
}

/// The canary information of the first line that has any.
pub open spec fn first_canary_info(lines: Seq<Seq<char>>) -> Option<(Option<Seq<char>>, u32, u32)>
    decreases lines.len(),
{
    if lines.len() == 0 {
        None
    } else {
        match canary_info_of_line(lines[0]) {
            Some(x) => Some(x),
            None => first_canary_info(lines.drop_first()),
        }
    }
}

/// The names of the methods through which background work starts.
pub open spec fn is_background_work_method(m: Seq<char>) -> bool {
    ||| m == "onReceive"@
    ||| m == "doWork"@
    ||| m == "onStartJob"@
    ||| m == "onStartCommand"@
    ||| m == "onBind"@
    ||| m == "onRebind"@
    ||| m == "onCreate"@
}

/// The class and method of background work that a stack trace line of the
/// form `LSPHooker_<id>_<class>.<method>(<rest>` names.
pub open spec fn parent_work_of_line(line: Seq<char>) -> Option<(Seq<char>, Seq<char>)> {
    if !"LSPHooker_"@.is_prefix_of(line) {
        None
    } else {
        match split_once_spec(line, '(') {
            None => None,
            Some((v, _)) => match split_once_spec(v, '_') {
                None => None,
                Some((_, w)) => match rsplit_once_spec(w, '.') {
                    None => None,
                    Some((class, method)) => if is_background_work_method(method) {
                        Some((class, method))
                    } else {
                        None
                    },
                },
            },
        }
    }
}

/// The background work named by the first line that names any.
pub open spec fn first_parent_work(lines: Seq<Seq<char>>) -> Option<(Seq<char>, Seq<char>)>
    decreases lines.len(),
{
    if lines.len() == 0 {
        None
    } else {
        match parent_work_of_line(lines[0]) {
            Some(x) => Some(x),
            None => first_parent_work(lines.drop_first()),
        }
    }
}

pub open spec fn canary_info_view(r: Option<(Option<String>, u32, u32)>) -> Option<
    (Option<Seq<char>>, u32, u32),
> {
    match r {
        Some((c, p, t)) => Some(
            (
                match c {
                    Some(s) => Some(s@),
                    None => None,
                },
                p,
                t,
            ),
        ),
        None => None,
    }
}

pub open spec fn string_pair_view(r: Option<(String, String)>) -> Option<(Seq<char>, Seq<char>)> {
    match r {
        Some((a, b)) => Some((a@, b@)),
        None => None,
    }
}

/// Whether `m` is one of the methods through which background work starts.
fn background_work_method(m: &str) -> (r: bool)
    ensures
        r == is_background_work_method(m@),
{
    str_eq(m, "onReceive") || str_eq(m, "doWork") || str_eq(m, "onStartJob") || str_eq(
        m,
        "onStartCommand",
    ) || str_eq(m, "onBind") || str_eq(m, "onRebind") || str_eq(m, "onCreate")
}

/// The canary information that one stack trace line names.
fn canary_info_of(line: &str) -> (r: Option<(Option<String>, u32, u32)>)
    ensures
        canary_info_view(r) == canary_info_of_line(line@),
{
    if !starts_with(line, "StackTracer_") {
        return None;
    }
    let head = match split_once_char(line, '.') {
        Some((head, _)) => head,
        None => return None,
    };
    let pieces = split_char(head, '_');
    let ghost pred = |p: Seq<char>| p.len() > 0 && p != "StackTracer"@;
    let mut v: Vec<&str> = Vec::new();
    let mut i: usize = 0;
    while i < pieces.len()
        invariant
            i <= pieces.len(),
            pred == (|p: Seq<char>| p.len() > 0 && p != "StackTracer"@),
            str_views(v@) == str_views(pieces@).take(i as int).filter(pred),
        decreases pieces.len() - i,
    {
        let p = pieces[i];
        proof {
            assert(str_views(pieces@).take(i + 1) =~= str_views(pieces@).take(i as int).push(p@));
            str_views(pieces@).take(i as int).lemma_filter_push(p@, pred);
        }
        if !p.is_empty() && !str_eq(p, "StackTracer") {
            let ghost before = v@;
            v.push(p);
            assert(str_views(v@) =~= str_views(before).push(p@));
        }
        i = i + 1;
    }
    assert(str_views(pieces@).take(pieces@.len() as int) =~= str_views(pieces@));
    let tid = match v.pop() {
        Some(t) => match parse_u32(t) {
            Some(x) => x,
            None => return None,
        },
        None => return None,
    };
    let pid = match v.pop() {
        Some(t) => match parse_u32(t) {
            Some(x) => x,
            None => return None,
        },
        None => return None,
    };
    let canary = match v.pop() {
        Some(c) => Some(c.to_owned()),
        None => None,
    };
    Some((canary, pid, tid))
}

/// The background work that one stack trace line names.
fn parent_work_of(line: &str) -> (r: Option<(String, String)>)
    ensures
        string_pair_view(r) == parent_work_of_line(line@),
{
    if !starts_with(line, "LSPHooker_") {
        return None;
    }
    let v = match split_once_char(line, '(') {
        Some((v, _)) => v,
        None => return None,
    };
    let w = match split_once_char(v, '_') {
        Some((_, w)) => w,
        None => return None,
    };
    match rsplit_once_char(w, '.') {
        Some((class, method)) => {
            if background_work_method(method) {
                Some((class.to_owned(), method.to_owned()))
            } else {
                None
            }
        },
        None => None,
    }
}

/// A value that may carry an encoded stack trace, and what can be read from it.
pub trait StackTrace {
    /// The encoded stack trace that the value carries, if any.
    spec fn encoded_stack_trace(&self) -> Option<Seq<char>>;

    fn get_encoded_stacktrace(&self) -> (r: Option<&str>)
        ensures
            match r {
                Some(s) => self.encoded_stack_trace() == Some(s@),
                None => self.encoded_stack_trace() is None,
            },
    ;

    /// The lines of the decoded stack trace.
    fn get_stack_trace(&self) -> (r: Option<Vec<String>>)
        ensures
            match r {
                Some(v) => decoded_stack_trace(self.encoded_stack_trace()) == Some(
                    string_views(v@),
                ),
                None => decoded_stack_trace(self.encoded_stack_trace()) is None,
            },
    {
        let st = match self.get_encoded_stacktrace() {
            Some(s) => s,
            None => return None,
        };
        let o = match base64_standard_decode(st) {
            Some(o) => o,
            None => return None,
        };
        let (result, ok) = gzip_read_all(o.as_slice());
        if !ok {
            return None;
        }
        match string_from_utf8(result) {
            Some(text) => Some(lines_of(text.as_str())),
            None => None,
        }
    }

    /// The canary, pid and tid named by the first `StackTracer_` line of the
    /// stack trace that names them.
    fn extract_canary_info(&self) -> (r: Option<(Option<String>, u32, u32)>)
        ensures
            canary_info_view(r) == match decoded_stack_trace(self.encoded_stack_trace()) {
                Some(lines) => first_canary_info(lines),
                None => None,
            },
    {
        let st = match self.get_stack_trace() {
            Some(st) => st,
            None => return None,
        };
        let ghost lines = string_views(st@);
        assert(lines.skip(0) =~= lines);
        let mut i: usize = 0;
        while i < st.len()
            invariant
                lines == string_views(st@),
                decoded_stack_trace(self.encoded_stack_trace()) == Some(lines),
                i <= st.len(),
                first_canary_info(lines) == first_canary_info(lines.skip(i as int)),
            decreases st.len() - i,
        {
            assert(lines.skip(i as int).drop_first() =~= lines.skip(i + 1));
            assert(lines.skip(i as int)[0] == st@[i as int]@);
            let found = canary_info_of(st[i].as_str());
            if found.is_some() {
                return found;
            }
            i = i + 1;
        }
        None
    }

    /// The background work named by the first `LSPHooker_` line of the stack
    /// trace that names one.
    fn get_parent_work(&self) -> (r: Option<(String, String)>)
        ensures
            string_pair_view(r) == match decoded_stack_trace(self.encoded_stack_trace()) {
                Some(lines) => first_parent_work(lines),
                None => None,
            },
    {
        let st = match self.get_stack_trace() {
            Some(st) => st,
            None => return None,
        };
        let ghost lines = string_views(st@);
        assert(lines.skip(0) =~= lines);
        let mut i: usize = 0;
        while i < st.len()
            invariant
                lines == string_views(st@),
                decoded_stack_trace(self.encoded_stack_trace()) == Some(lines),
                i <= st.len(),
                first_parent_work(lines) == first_parent_work(lines.skip(i as int)),
            decreases st.len() - i,
        {
            assert(lines.skip(i as int).drop_first() =~= lines.skip(i + 1));
            assert(lines.skip(i as int)[0] == st@[i as int]@);
            let found = parent_work_of(st[i].as_str());
            if found.is_some() {
                return found;
            }
            i = i + 1;
        }
        None
    }
}

impl<'a> StackTrace for EventStackTrace<'a> {
    open spec fn encoded_stack_trace(&self) -> Option<Seq<char>> {
        self.spec_encoded()
    }

    fn get_encoded_stacktrace(&self) -> (r: Option<&str>) {
        self.encoded
    }
}

impl StackTrace for Canary {
    open spec fn encoded_stack_trace(&self) -> Option<Seq<char>> {
        Some(self.stack_trace@)
    }

    fn get_encoded_stacktrace(&self) -> (r: Option<&str>) {
        Some(self.stack_trace.as_str())
    }
}

impl<T> StackTrace for Option<T> {
    open spec fn encoded_stack_trace(&self) -> Option<Seq<char>> {
        None
    }

    fn get_encoded_stacktrace(&self) -> (r: Option<&str>) {
        None
    }
}

/// The method of background work that a canary's first character stands for.
pub open spec fn work_method_of_indicator(c: char) -> Option<Seq<char>> {
    if c == '1' {
        Some("onReceive"@)
    } else if c == '2' {
        Some("doWork"@)
    } else if c == '3' {
        Some("onStartJob"@)
    } else if c == '4' {
        Some("onStartCommand"@)
    } else if c == '5' {
        Some("onBind"@)
    } else if c == '6' {
        Some("onRebind"@)
    } else if c == '7' {
        Some("onCreate"@)
    } else {
        None
    }
}

/// The class and method of a stack trace line `<class>.<method>(<rest>` whose
/// method starts with `m` and whose class is not a hook's.
pub open spec fn work_name_of_line(line: Seq<char>, m: Seq<char>) -> Option<(Seq<char>, Seq<char>)> {
    match split_once_spec(line, '(') {
        None => None,
        Some((a, _)) => match rsplit_once_spec(a, '.') {
            None => None,
            Some((class, method)) => if m.is_prefix_of(method) && !"LSPHooker_"@.is_prefix_of(
                class,
            ) {
                Some((class, method))
            } else {
                None
            },
        },
    }
}

/// The work names of all lines, in order.
pub open spec fn work_names(lines: Seq<Seq<char>>, m: Seq<char>) -> Seq<(Seq<char>, Seq<char>)> {
    lines.filter_map(|l: Seq<char>| work_name_of_line(l, m))
}

impl Canary {
    /// The background work named in the canary's stack trace for the method
    /// that the canary's first character stands for.
    pub open spec fn spec_work_names(&self) -> Seq<(Seq<char>, Seq<char>)> {
        match decoded_stack_trace(Some(self.stack_trace@)) {
            None => seq![],
            Some(lines) => if self.canary@.len() == 0 {
                seq![]
            } else {
                match work_method_of_indicator(self.canary@[0]) {
                    Some(m) => work_names(lines, m),
                    None => seq![],
                }
            },
        }
    }

    pub fn get_work_name(&self) -> (r: Vec<(String, String)>)
        ensures
            pair_views(r@) == self.spec_work_names(),
    {
        let st = match self.get_stack_trace() {
            Some(st) => st,
            None => return Vec::new(),
        };
        let cv = chars_of(self.canary.as_str());
        if cv.len() == 0 {
            return Vec::new();
        }
        let indicator = cv[0];
        if indicator == '1' {
            Self::extract_work_name(&st, "onReceive")
        } else if indicator == '2' {
            Self::extract_work_name(&st, "doWork")
        } else if indicator == '3' {
            Self::extract_work_name(&st, "onStartJob")
        } else if indicator == '4' {
            Self::extract_work_name(&st, "onStartCommand")
        } else if indicator == '5' {
            Self::extract_work_name(&st, "onBind")
        } else if indicator == '6' {
            Self::extract_work_name(&st, "onRebind")
        } else if indicator == '7' {
            Self::extract_work_name(&st, "onCreate")
        } else {
            Vec::new()
        }
    }

    fn extract_work_name(st: &Vec<String>, m: &str) -> (r: Vec<(String, String)>)
        ensures
            pair_views(r@) == work_names(string_views(st@), m@),
    {
        let ghost lines = string_views(st@);
        let ghost f = |l: Seq<char>| work_name_of_line(l, m@);
        let mut classes: Vec<(String, String)> = Vec::new();
        let mut i: usize = 0;
        while i < st.len()
            invariant
                lines == string_views(st@),
                f == (|l: Seq<char>| work_name_of_line(l, m@)),
                i <= st.len(),
                pair_views(classes@) == lines.take(i as int).filter_map(f),
            decreases st.len() - i,
        {
            proof {
                lines.lemma_filter_map_take_succ(f, i as int);
            }
            let s = st[i].as_str();
            let found = match split_once_char(s, '(') {
                Some((a, _)) => rsplit_once_char(a, '.'),
                None => None,
            };
            match found {
                Some((class_name, method_name)) => {
                    if starts_with(method_name, m) && !starts_with(class_name, "LSPHooker_") {
                        let ghost before = classes@;
                        classes.push((class_name.to_owned(), method_name.to_owned()));
                        assert(pair_views(classes@) =~= pair_views(before).push(
                            (class_name@, method_name@),
                        ));
                    }
                },
                None => {},
            }
            i = i + 1;
        }
        assert(lines.take(st.len() as int) =~= lines);
        classes
    }
}

/// The address part of a socket address text: what follows the first `/`,
/// or the whole text when it holds none.
pub open spec fn address_part(text: Seq<char>) -> Seq<char> {
    match split_once_spec(text, '/') {
        Some((_, rest)) => rest,
        None => text,
    }
}

impl SocketHook {
    /// The text of the local socket address, without a host name before `/`.
    pub fn local_socket_addr_text(&self) -> (r: &str)
        ensures
            r@ == address_part(self.local_addr@),
    {
        match split_once_char(self.local_addr.as_str(), '/') {
            Some((_, rest)) => rest,
            None => self.local_addr.as_str(),
        }
    }

    /// The text of the remote socket address, without a host name before `/`.
    pub fn remote_socket_addr_text(&self) -> (r: &str)
        ensures
            r@ == address_part(self.remote_addr@),
    {
        match split_once_char(self.remote_addr.as_str(), '/') {
            Some((_, rest)) => rest,
            None => self.remote_addr.as_str(),
        }
    }
}

/// The job has some condition that events, rather than time, satisfy.
pub open spec fn has_event_conditions(j: JobScheduler) -> bool {
    ||| j.required_network_capabilities@.len() > 0
    ||| j.required_network_transport_types@.len() > 0
    ||| j.is_require_battery_not_low
    ||| j.is_require_charging
    ||| j.is_require_device_idle
    ||| j.is_require_storage_not_low
    ||| j.trigger_content_max_delay != 0
    ||| j.trigger_content_update_delay != 0
    ||| j.trigger_content_uris@.len() > 0
    ||| j.is_expedited
    ||| j.is_important_while_foreground
}

/// The job has some timing constraint.
pub open spec fn has_time_conditions(j: JobScheduler) -> bool {
    ||| j.min_latency_millis != 0
    ||| j.max_execution_delay_millis != 0
    ||| j.interval_millis != 0
    ||| j.flex_millis != 0
    ||| j.initial_backoff_millis != 0
}

impl JobScheduler {
    /// The event conditions of the job, if it has any.
    pub fn into_event(&self) -> (r: Option<EventDrivenJob>)
        ensures
            r is Some <==> has_event_conditions(*self),
            r matches Some(e) ==> {
                &&& e.required_network_capabilities@ == self.required_network_capabilities@
                &&& e.required_network_transport_types@ == self.required_network_transport_types@
                &&& e.is_require_battery_not_low == self.is_require_battery_not_low
                &&& e.is_require_charging == self.is_require_charging
                &&& e.is_require_device_idle == self.is_require_device_idle
                &&& e.is_require_storage_not_low == self.is_require_storage_not_low
                &&& e.trigger_content_max_delay == self.trigger_content_max_delay
                &&& e.trigger_content_update_delay == self.trigger_content_update_delay
                &&& e.trigger_content_uris@ == self.trigger_content_uris@
                &&& e.is_expedited == self.is_expedited
                &&& e.is_important_while_foreground == self.is_important_while_foreground
            },
    {
        let j = self;
        let any = !j.required_network_capabilities.is_empty()
            || !j.required_network_transport_types.is_empty() || j.is_require_battery_not_low
            || j.is_require_charging || j.is_require_device_idle || j.is_require_storage_not_low
            || j.trigger_content_max_delay != 0 || j.trigger_content_update_delay != 0
            || !j.trigger_content_uris.as_str().is_empty() || j.is_expedited
            || j.is_important_while_foreground;
        if any {
            Some(
                EventDrivenJob {
                    required_network_capabilities: copy_i32s(&j.required_network_capabilities),
                    required_network_transport_types: copy_i32s(
                        &j.required_network_transport_types,
                    ),
                    is_require_battery_not_low: j.is_require_battery_not_low,
                    is_require_charging: j.is_require_charging,
                    is_require_device_idle: j.is_require_device_idle,
                    is_require_storage_not_low: j.is_require_storage_not_low,
                    trigger_content_max_delay: j.trigger_content_max_delay,
                    trigger_content_update_delay: j.trigger_content_update_delay,
                    trigger_content_uris: j.trigger_content_uris.clone(),
                    is_expedited: j.is_expedited,
                    is_important_while_foreground: j.is_important_while_foreground,
                },
            )
        } else {
            None
        }
    }

    /// The timing constraints of the job, if it has any.
    pub fn into_time(&self) -> (r: Option<TimeDrivenJob>)
        ensures
            r is Some <==> has_time_conditions(*self),
            r matches Some(t) ==> t == (TimeDrivenJob {
                min_latency_millis: self.min_latency_millis,
                max_execution_delay_millis: self.max_execution_delay_millis,
                interval_millis: self.interval_millis,
                flex_millis: self.flex_millis,
                initial_backoff_millis: self.initial_backoff_millis,
            }),
    {
        let j = self;
        if j.min_latency_millis != 0 || j.max_execution_delay_millis != 0 || j.interval_millis
            != 0 || j.flex_millis != 0 || j.initial_backoff_millis != 0 {
            Some(
                TimeDrivenJob {
                    min_latency_millis: j.min_latency_millis,
                    max_execution_delay_millis: j.max_execution_delay_millis,
                    interval_millis: j.interval_millis,
                    flex_millis: j.flex_millis,
                    initial_backoff_millis: j.initial_backoff_millis,
                },
            )
        } else {
            None
        }
    }
}

/// A copy of a sequence of integers.
fn copy_i32s(v: &Vec<i32>) -> (r: Vec<i32>)
    ensures
        r@ == v@,
{
    let mut r: Vec<i32> = Vec::new();
    let mut i: usize = 0;
    while i < v.len()
        invariant
            i <= v.len(),
            r@ == v@.take(i as int),
        decreases v.len() - i,
    {
        r.push(v[i]);
        i = i + 1;
    }
    assert(v@.take(v.len() as int) =~= v@);
    r
}

} // verus!
