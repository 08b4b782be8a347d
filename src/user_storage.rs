use vstd::prelude::*;
use vstd::string::*;
use crate::storage::copy_bytes;
use crate::table::StrMap;

verus! {

/// Whether `p` is a prefix of `s`.
pub open spec fn has_prefix(s: Seq<char>, p: Seq<char>) -> bool {
    p.len() <= s.len() && s.subrange(0, p.len() as int) == p
}

pub fn starts_with(s: &String, p: &String) -> (r: bool)
    ensures
        r == has_prefix(s@, p@),
{
    let sl = s.as_str().unicode_len();
    let pl = p.as_str().unicode_len();
    if pl > sl {
        return false;
    }
    let mut i: usize = 0;
    while i < pl
        invariant
            pl == p@.len(),
            sl == s@.len(),
            pl <= sl,
            i <= pl,
            forall|j: int| 0 <= j < i ==> s@[j] == p@[j],
        decreases pl - i,
    {
        if s.as_str().get_char(i) != p.as_str().get_char(i) {
            return false;
        }
        i += 1;
    }
    assert(s@.subrange(0, p@.len() as int) =~= p@);
    true
}

/// Values of the entries whose key starts with `prefix`, in entry order.
pub open spec fn prefixed_values(keys: Seq<Seq<char>>, values: Seq<Vec<u8>>, prefix: Seq<char>) -> Seq<
    Seq<u8>,
>
    decreases keys.len(),
{
    if keys.len() == 0 || values.len() == 0 {
        Seq::empty()
    } else {
        let rest = prefixed_values(keys.drop_last(), values.drop_last(), prefix);
        if has_prefix(keys.last(), prefix) {
            rest.push(values.last()@)
        } else {
            rest
        }
    }
}

/// In-memory key-value engine of the placement center; keys are kept in the
/// order they were first written.
pub struct KvEngine {
    data: StrMap<Vec<u8>>,
}

impl KvEngine {
    pub closed spec fn entries(&self) -> StrMap<Vec<u8>> {
        self.data
    }

    /// Stored value of each key.
    pub open spec fn view(&self) -> Map<Seq<char>, Vec<u8>> {
        self.entries()@
    }

    pub open spec fn wf(&self) -> bool {
        self.entries().wf()
    }

    pub fn new() -> (r: Self)
        ensures
            r.wf(),
            r@ == Map::<Seq<char>, Vec<u8>>::empty(),
    {
        KvEngine { data: StrMap::new() }
    }

    pub fn save(&mut self, key: String, value: Vec<u8>)
        requires
            old(self).wf(),
        ensures
            final(self).wf(),
            final(self)@ == old(self)@.insert(key@, value),
    {
        self.data.insert(key, value);
    }

    pub fn get(&self, key: &String) -> (r: Option<Vec<u8>>)
        requires
            self.wf(),
        ensures
            r is None <==> !self@.contains_key(key@),
            r matches Some(v) ==> v@ == self@[key@]@,
    {
        match self.data.get(key) {
            Some(v) => Some(copy_bytes(v)),
            None => None,
        }
    }

    pub fn delete(&mut self, key: &String)
        requires
            old(self).wf(),
        ensures
            final(self).wf(),
            final(self)@ == old(self)@.remove(key@),
    {
        self.data.remove(key);
    }

    /// Values of all keys that start with `prefix`, in key order of first write.
    pub fn prefix_list(&self, prefix: &String) -> (r: Vec<Vec<u8>>)
        requires
            self.wf(),
        ensures
            r@.map_values(|v: Vec<u8>| v@) == prefixed_values(
                self.entries().keys(),
                self.entries().values(),
                prefix@,
            ),
    {
        let mut out: Vec<Vec<u8>> = Vec::new();
        let n = self.data.len();
        let mut i: usize = 0;
        while i < n
            invariant
                self.wf(),
                n == self.entries().keys().len(),
                i <= n,
                out@.map_values(|v: Vec<u8>| v@) == prefixed_values(
                    self.entries().keys().subrange(0, i as int),
                    self.entries().values().subrange(0, i as int),
                    prefix@,
                ),
            decreases n - i,
        {
            let ghost ks = self.entries().keys();
            let ghost vs = self.entries().values();
            proof {
                assert(ks.subrange(0, i + 1).drop_last() =~= ks.subrange(0, i as int));
                assert(vs.subrange(0, i + 1).drop_last() =~= vs.subrange(0, i as int));
            }
            if starts_with(self.data.key_at(i), prefix) {
                let ghost before = out@;
                out.push(copy_bytes(self.data.value_at(i)));
                assert(out@.map_values(|v: Vec<u8>| v@) =~= before.map_values(|v: Vec<u8>| v@).push(
                    vs[i as int]@,
                ));
            }
            i += 1;
        }
        assert(self.entries().keys().subrange(0, n as int) =~= self.entries().keys());
        assert(self.entries().values().subrange(0, n as int) =~= self.entries().values());
        out
    }
}

/// Key under which a user of a cluster is stored:
/// `/cluster/<cluster>/mqtt/user/<user>`.
pub open spec fn user_key(cluster_name: Seq<char>, user_name: Seq<char>) -> Seq<char> {
    user_prefix(cluster_name) + user_name
}

/// Common prefix of the keys of a cluster's users: `/cluster/<cluster>/mqtt/user/`.
pub open spec fn user_prefix(cluster_name: Seq<char>) -> Seq<char> {
    "/cluster/"@ + cluster_name + "/mqtt/user/"@
}

pub fn storage_key_mqtt_user_cluster_prefix(cluster_name: &String) -> (r: String)
    ensures
        r@ == user_prefix(cluster_name@),
{
    let mut key = String::from_str("/cluster/");
    key.append(cluster_name.as_str());
    key.append("/mqtt/user/");
    key
}

pub fn storage_key_mqtt_user(cluster_name: &String, user_name: &String) -> (r: String)
    ensures
        r@ == user_key(cluster_name@, user_name@),
{
    let mut key = storage_key_mqtt_user_cluster_prefix(cluster_name);
    key.append(user_name.as_str());
    key
}

/// Store of MQTT users, one encoded record per (cluster, user name).
pub struct MQTTUserStorage {
    rocksdb_engine_handler: KvEngine,
}

impl MQTTUserStorage {
    pub closed spec fn engine(&self) -> KvEngine {
        self.rocksdb_engine_handler
    }

    pub open spec fn wf(&self) -> bool {
        self.engine().wf()
    }

    pub fn new(rocksdb_engine_handler: KvEngine) -> (r: Self)
        ensures
            r.engine() == rocksdb_engine_handler,
    {
        MQTTUserStorage { rocksdb_engine_handler }
    }

    /// Stores the encoded record of `user_name` in `cluster_name`.
    pub fn save(&mut self, cluster_name: &String, user_name: &String, user: Vec<u8>)
        requires
            old(self).wf(),
        ensures
            final(self).wf(),
            final(self).engine()@ == old(self).engine()@.insert(
                user_key(cluster_name@, user_name@),
                user,
            ),
    {
        let key = storage_key_mqtt_user(cluster_name, user_name);
        self.rocksdb_engine_handler.save(key, user);
    }

    /// The encoded records of all users of `cluster_name`.
    pub fn list(&self, cluster_name: &String) -> (r: Vec<Vec<u8>>)
        requires
            self.wf(),
        ensures
            r@.map_values(|v: Vec<u8>| v@) == prefixed_values(
                self.engine().entries().keys(),
                self.engine().entries().values(),
                user_prefix(cluster_name@),
            ),
    {
        let prefix_key = storage_key_mqtt_user_cluster_prefix(cluster_name);
        self.rocksdb_engine_handler.prefix_list(&prefix_key)
    }

    /// The encoded record of `username` in `cluster_name`, if stored.
    pub fn get(&self, cluster_name: &String, username: &String) -> (r: Option<Vec<u8>>)
        requires
            self.wf(),
        ensures
            r is None <==> !self.engine()@.contains_key(user_key(cluster_name@, username@)),
            r matches Some(v) ==> v@ == self.engine()@[user_key(cluster_name@, username@)]@,
    {
        let key = storage_key_mqtt_user(cluster_name, username);
        self.rocksdb_engine_handler.get(&key)
    }

    pub fn delete(&mut self, cluster_name: &String, user_name: &String)
        requires
            old(self).wf(),
        ensures
            final(self).wf(),
            final(self).engine()@ == old(self).engine()@.remove(user_key(cluster_name@, user_name@)),
    {
        let key = storage_key_mqtt_user(cluster_name, user_name);
        self.rocksdb_engine_handler.delete(&key);
    }
}

} // verus!
