use vstd::prelude::*;
use vstd::string::*;

verus! {

/// Where the placement center writes its logs.
#[derive(Clone, Debug, PartialEq, Eq)]
pub struct Log {
    pub log_path: String,
    pub log_config: String,
}

/// Storage engine settings of the placement center.
#[derive(Clone, Copy, Debug, PartialEq, Eq, Structural)]
pub struct Rocksdb {
    pub max_open_files: Option<i32>,
}

/// toml's table type (`toml::Table` is `toml::map::Map<String, toml::Value>`),
/// opaque here.
#[verifier::external_type_specification]
#[verifier::external_body]
#[verifier::reject_recursive_types(K)]
#[verifier::reject_recursive_types(V)]
pub struct ExTomlMap<K, V>(toml::map::Map<K, V>);

/// toml's value type, opaque here.
#[verifier::external_type_specification]
#[verifier::external_body]
pub struct ExTomlValue(toml::Value);

/// The entries of a TOML table whose values are strings, as key -> string.
pub uninterp spec fn toml_string_entries(t: toml::Table) -> Map<Seq<char>, Seq<char>>;

pub open spec fn no_entries() -> Map<Seq<char>, Seq<char>> {
    Map::empty()
}

/// Relies on toml::map::Map::new: a new table has no entries.
#[verifier::external_body]
fn toml_table_new() -> (r: toml::Table)
    ensures
        toml_string_entries(r) == no_entries(),
{
    toml::Table::new()
}

/// Relies on toml::map::Map::insert: the key then maps to the given string
/// value, whatever it held before, and the other entries stay.
#[verifier::external_body]
fn toml_insert_string(t: &mut toml::Table, k: String, v: String)
    ensures
        toml_string_entries(*final(t)) == toml_string_entries(*old(t)).insert(k@, v@),
{
    t.insert(k, toml::Value::String(v));
}

/// Decimal digits of `n`, most significant first, without leading zeros.
pub open spec fn decimal(n: nat) -> Seq<char>
    decreases n,
{
    if n < 10 {
        seq![digit_char(n)]
    } else {
        decimal(n / 10).push(digit_char(n % 10))
    }
}

pub open spec fn digit_char(d: nat) -> char {
    ((d + 48) as u8) as char
}

/// Relies on `ToString` for u64 (its `Display`): the decimal digits.
#[verifier::external_body]
fn u64_to_string(n: u64) -> (r: String)
    ensures
        r@ == decimal(n as nat),
{
    n.to_string()
}

pub fn default_cluster_name() -> (r: String)
    ensures
        r@ == "placement-center"@,
{
    String::from_str("placement-center")
}

pub fn default_node_id() -> (r: u64)
    ensures
        r == 1,
{
    1
}

pub fn default_addr() -> (r: String)
    ensures
        r@ == "127.0.0.1"@,
{
    String::from_str("127.0.0.1")
}

pub fn default_grpc_port() -> (r: u32)
    ensures
        r == 1228,
{
    1228
}

pub fn default_http_port() -> (r: u32)
    ensures
        r == 1227,
{
    1227
}

pub fn default_runtime_work_threads() -> (r: usize)
    ensures
        r == 100,
{
    100
}

pub fn default_data_path() -> (r: String)
    ensures
        r@ == "/tmp/robust/placement-center/data"@,
{
    String::from_str("/tmp/robust/placement-center/data")
}

pub fn default_log() -> (r: Log)
    ensures
        r.log_path@ == "./logs/placement-center"@,
        r.log_config@ == "./config/log4rs.yaml"@,
{
    Log {
        log_path: String::from_str("./logs/placement-center"),
        log_config: String::from_str("./config/log4rs.yaml"),
    }
}

/// The default cluster: node `default_node_id()` at
/// `default_addr():default_grpc_port()`.
pub fn default_nodes() -> (r: toml::Table)
    ensures
        toml_string_entries(r) == no_entries().insert("1"@, "127.0.0.1:1228"@),
{
    let mut nodes = toml_table_new();
    let key = u64_to_string(default_node_id());
    let mut addr = default_addr();
    addr.append(":");
    let port = u64_to_string(default_grpc_port() as u64);
    addr.append(port.as_str());
    proof {
        reveal_strlit("1");
        reveal_strlit("127.0.0.1");
        reveal_strlit(":");
        reveal_strlit("127.0.0.1:1228");
        assert(decimal(1) =~= "1"@);
        assert(decimal(1) =~= seq!['1']);
        assert(decimal(12) =~= seq!['1', '2']);
        assert(decimal(122) =~= seq!['1', '2', '2']);
        assert(decimal(1228) =~= seq!['1', '2', '2', '8']);
        assert(addr@ =~= "127.0.0.1:1228"@);
    }
    toml_insert_string(&mut nodes, key, addr);
    nodes
}

pub fn default_max_open_files() -> (r: Option<i32>)
    ensures
        r == Some(10000i32),
{
    Some(10000)
}

pub fn default_rocksdb() -> (r: Rocksdb)
    ensures
        r.max_open_files == Some(10000i32),
{
    Rocksdb { max_open_files: default_max_open_files() }
}

pub fn default_heartbeat_timeout_ms() -> (r: u64)
    ensures
        r == 30000,
{
    30000
}

pub fn default_heartbeat_check_time_ms() -> (r: u64)
    ensures
        r == 1000,
{
    1000
}

} // verus!
