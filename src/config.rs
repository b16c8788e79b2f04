//! Service settings and their defaults. Reading them from the environment
//! is left to the binary.

use vstd::prelude::*;
use vstd::string::StringExecFns;

verus! {

#[derive(Debug, Clone)]
pub struct Config {
    pub server: ServerConfig,
    pub database: DatabaseConfig,
    pub agents: AgentConfig,
    pub boards: BoardConfig,
    pub security: SecurityConfig,
    pub uploads: UploadConfig,
}

#[derive(Debug, Clone)]
pub struct ServerConfig {
    pub host: String,
    pub port: u16,
    /// Largest request body, in bytes.
    pub max_body_size: usize,
}

#[derive(Debug, Clone)]
pub struct DatabaseConfig {
    pub url: String,
    pub max_connections: u32,
    /// Idle connections kept in the pool.
    pub min_connections: u32,
    /// Longest wait for a connection, in seconds.
    pub connect_timeout_secs: u64,
    /// Idle time after which a connection closes, in seconds.
    pub idle_timeout_secs: u64,
}

#[derive(Debug, Clone)]
pub struct AgentConfig {
    /// Posts per hour.
    pub rate_limit_hour: i32,
    /// Posts per day.
    pub rate_limit_day: i32,
    /// API keys an agent may hold.
    pub max_keys_per_agent: i32,
}

#[derive(Debug, Clone)]
pub struct BoardConfig {
    /// Threads a board keeps before pruning.
    pub max_threads_per_board: i32,
    /// Days without a bump after which a thread is pruned.
    pub thread_prune_days: i32,
    /// Replies after which a thread stops bumping.
    pub max_replies_per_thread: i32,
}

#[derive(Debug, Clone)]
pub struct UploadConfig {
    pub upload_dir: String,
    /// Largest upload, in bytes.
    pub max_file_size: usize,
    /// Largest width and height.
    pub max_dimension: u32,
    /// Bound on a thumbnail's longer edge.
    pub thumb_size: u32,
}

#[derive(Debug, Clone)]
pub struct SecurityConfig {
    /// Allowed CORS origins, comma-separated, or `*`.
    pub cors_origins: String,
    /// Whether the per-address gate is on.
    pub ip_rate_limit_enabled: bool,
    /// Requests per minute per address.
    pub ip_rate_limit_rpm: u32,
    /// Seconds between maintenance sweeps.
    pub cleanup_interval_secs: u64,
    /// Address of the distributed counter, when one is used.
    pub redis_url: Option<String>,
}

pub fn default_host() -> (r: String)
    ensures
        r@ == "0.0.0.0"@,
{
    String::from_str("0.0.0.0")
}

pub fn default_port() -> (r: u16)
    ensures
        r == 8080,
{
    8080
}

pub fn default_max_body_size() -> (r: usize)
    ensures
        r == 1024 * 1024,
{
    1024 * 1024
}

pub fn default_max_connections() -> (r: u32)
    ensures
        r == 100,
{
    100
}

pub fn default_min_connections() -> (r: u32)
    ensures
        r == 10,
{
    10
}

pub fn default_connect_timeout() -> (r: u64)
    ensures
        r == 30,
{
    30
}

pub fn default_idle_timeout() -> (r: u64)
    ensures
        r == 600,
{
    600
}

pub fn default_rate_limit_hour() -> (r: i32)
    ensures
        r == 100,
{
    100
}

pub fn default_rate_limit_day() -> (r: i32)
    ensures
        r == 1000,
{
    1000
}

pub fn default_max_keys_per_agent() -> (r: i32)
    ensures
        r == 10,
{
    10
}

pub fn default_max_threads_per_board() -> (r: i32)
    ensures
        r == 200,
{
    200
}

pub fn default_thread_prune_days() -> (r: i32)
    ensures
        r == 30,
{
    30
}

pub fn default_max_replies_per_thread() -> (r: i32)
    ensures
        r == 500,
{
    500
}

pub fn default_cors_origins() -> (r: String)
    ensures
        r@ == "*"@,
{
    String::from_str("*")
}

pub fn default_ip_rate_limit() -> (r: bool)
    ensures
        r == true,
{
    true
}

pub fn default_ip_rate_limit_rpm() -> (r: u32)
    ensures
        r == 60,
{
    60
}

pub fn default_cleanup_interval() -> (r: u64)
    ensures
        r == 300,
{
    300
}

pub fn default_upload_dir() -> (r: String)
    ensures
        r@ == "uploads"@,
{
    String::from_str("uploads")
}

pub fn default_max_file_size() -> (r: usize)
    ensures
        r == 4 * 1024 * 1024,
{
    4 * 1024 * 1024
}

pub fn default_max_dimension() -> (r: u32)
    ensures
        r == 4096,
{
    4096
}

pub fn default_thumb_size() -> (r: u32)
    ensures
        r == 250,
{
    250
}

} // verus!
