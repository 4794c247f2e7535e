use vstd::prelude::*;
use vstd::string::StringSliceAdditionalSpecFns;

verus! {

/// The kind of metadata store behind the proxy.
#[derive(Clone, Copy, Debug, PartialEq, Eq, Structural)]
pub enum MetaType {
    /// An etcd-style store.
    ETCD,
    /// A redis-style store.
    Redis,
}

/// Whether two strings hold the same bytes.
fn str_bytes_eq(a: &str, b: &str) -> (r: bool)
    ensures
        r == (a.spec_bytes() == b.spec_bytes()),
{
    let ab = a.as_bytes();
    let bb = b.as_bytes();
    if ab.len() != bb.len() {
        proof {
            assert(a.spec_bytes() != b.spec_bytes());
        }
        return false;
    }
    let n = ab.len();
    let mut i: usize = 0;
    while i < n
        invariant
            i <= n,
            n == ab@.len(),
            n == bb@.len(),
            ab@ == a.spec_bytes(),
            bb@ == b.spec_bytes(),
            forall|j: int| 0 <= j < i ==> ab@[j] == bb@[j],
        decreases n - i,
    {
        if ab[i] != bb[i] {
            return false;
        }
        i = i + 1;
    }
    proof {
        assert(ab@ =~= bb@);
    }
    true
}

impl MetaType {
    /// The name of the meta type.
    pub fn get_meta_type(&self) -> (r: String)
        ensures
            *self is ETCD ==> r@ == "etcd"@,
            *self is Redis ==> r@ == "redis"@,
    {
        match self {
            MetaType::ETCD => "etcd".to_owned(),
            MetaType::Redis => "redis".to_owned(),
        }
    }

    /// The meta type named by a string, which must name one.
    pub fn from_string(meta_type: &str) -> (res: MetaType)
        requires
            meta_type@ == "etcd"@ || meta_type@ == "redis"@,
        ensures
            meta_type@ == "etcd"@ ==> res is ETCD,
            meta_type@ == "redis"@ ==> res is Redis,
    {
        let etcd = "etcd";
        let redis = "redis";
        if str_bytes_eq(meta_type, etcd) {
            proof {
                reveal_strlit("etcd");
                reveal_strlit("redis");
                if meta_type@ == "redis"@ {
                    assert(vstd::string::is_ascii(etcd));
                    assert(vstd::string::is_ascii(redis));
                    vstd::string::is_ascii_spec_bytes(etcd);
                    vstd::string::is_ascii_spec_bytes(redis);
                    assert(etcd.spec_bytes().len() == 4);
                    assert(redis.spec_bytes().len() == 5);
                    assert(meta_type.spec_bytes() == redis.spec_bytes());
                    assert(false);
                }
            }
            MetaType::ETCD
        } else {
            proof {
                if meta_type@ == "etcd"@ {
                    assert(meta_type.spec_bytes() == etcd.spec_bytes());
                    assert(false);
                }
            }
            MetaType::Redis
        }
    }
}

/// The proxy configuration.
#[derive(Debug, Clone)]
pub struct Config {
    /// Initial number of hash ring slots.
    pub slot_size: usize,
    /// The kind of metadata store.
    pub meta_type: MetaType,
    /// The metadata store endpoints.
    pub meta_endpoints: Vec<String>,
    /// The reconciliation period in seconds.
    pub time_period: usize,
    /// The ip the request server binds.
    pub rpc_ip: String,
    /// The port the request server binds.
    pub rpc_port: u16,
}

impl Config {
    /// Create a new config from its parts; the meta type string must name a
    /// store kind.
    pub fn new(
        slot_size: usize,
        meta_type_string: &str,
        meta_endpoints: Vec<String>,
        time_period: usize,
        rpc_ip: String,
        rpc_port: u16,
    ) -> (c: Config)
        requires
            meta_type_string@ == "etcd"@ || meta_type_string@ == "redis"@,
        ensures
            c.slot_size == slot_size,
            meta_type_string@ == "etcd"@ ==> c.meta_type is ETCD,
            meta_type_string@ == "redis"@ ==> c.meta_type is Redis,
            c.meta_endpoints == meta_endpoints,
            c.time_period == time_period,
            c.rpc_ip == rpc_ip,
            c.rpc_port == rpc_port,
    {
        let meta_type = MetaType::from_string(meta_type_string);
        Config { slot_size, meta_type, meta_endpoints, time_period, rpc_ip, rpc_port }
    }

    /// Get the slot size.
    pub fn slot_size(&self) -> (r: usize)
        ensures
            r == self.slot_size,
    {
        self.slot_size
    }

    /// Get the metadata store endpoints.
    pub fn meta_endpoints(&self) -> (r: &Vec<String>)
        ensures
            r == &self.meta_endpoints,
    {
        &self.meta_endpoints
    }

    /// Get the reconciliation period.
    pub fn time_period(&self) -> (r: usize)
        ensures
            r == self.time_period,
    {
        self.time_period
    }
}

} // verus!
