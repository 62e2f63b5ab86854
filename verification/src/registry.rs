//! The device registry: paired devices keyed by udid and ip, the pairing-code
//! flow, and process-wide usage counters. The registry owns the record
//! collection; reading the backing file and writing it back are the callers'
//! I/O, performed around these calls.

use vstd::prelude::*;

use crate::session::Client;

verus! {

/// Representation of one registered device.
pub struct DeserializedClient {
    /// The device's IP on the local network.
    pub ip: String,
    /// The device's udid, used to identify it.
    pub udid: String,
    /// Unix seconds at registration.
    pub last_seen: u64,
}

/// A pairing attempt that has been offered a code but not yet completed.
pub struct PairPotential {
    pub ip: String,
    pub code: u16,
}

/// Process-wide usage tallies. `uptime` is the unix second the process
/// started at, so that a report can subtract it from the current time.
pub struct Counter {
    pub launched: usize,
    pub fetched: usize,
    pub attached: usize,
    pub uptime: u64,
    pub netmuxd: usize,
}

/// Why a registry mutation was refused.
#[derive(Debug)]
pub enum RegistryError {
    /// A record with the same ip or the same udid already exists.
    AlreadyRegistered,
    /// No record matches.
    NotFound,
}

/// The registry itself, together with the configured paths and subnet.
pub struct Backend {
    pub deserialized_clients: Vec<DeserializedClient>,
    pub allowed_subnet: String,
    pub database_path: String,
    pub plist_storage: String,
    pub dmg_path: String,
    pub netmuxd_address: Option<String>,
    pub pair_potential: Vec<PairPotential>,
    pub counter: Counter,
}

impl Default for Counter {
    /// Fresh tallies: zero everywhere, with the process start time read off
    /// the clock.
    fn default() -> (c: Counter)
        ensures
            c.launched == 0 && c.fetched == 0 && c.attached == 0 && c.netmuxd == 0,
    {
        Counter { fetched: 0, launched: 0, attached: 0, netmuxd: 0, uptime: unix_now_seconds() }
    }
}

impl DeserializedClient {
    /// The session value for this record, carrying the given pairing-file
    /// path and DMG cache path.
    pub fn to_client(&self, plist_path: &String, dmg_path: &String) -> (c: Client)
        ensures
            c.ip@ == self.ip@,
            c.udid@ == self.udid@,
            c.pairing_file@ == plist_path@,
            c.dmg_path@ == dmg_path@,
    {
        Client::new(self.ip.clone(), self.udid.clone(), plist_path.clone(), dmg_path.clone())
    }
}

/// Some record in `records` has this ip.
pub open spec fn has_ip(records: Seq<DeserializedClient>, ip: Seq<char>) -> bool {
    exists|i: int| 0 <= i < records.len() && (#[trigger] records[i]).ip@ == ip
}

/// Some record in `records` has this udid.
pub open spec fn has_udid(records: Seq<DeserializedClient>, udid: Seq<char>) -> bool {
    exists|i: int| 0 <= i < records.len() && (#[trigger] records[i]).udid@ == udid
}

/// The first record with this ip, if any.
pub open spec fn find_by_ip(records: Seq<DeserializedClient>, ip: Seq<char>) -> Option<
    DeserializedClient,
>
    decreases records.len(),
{
    if records.len() == 0 {
        None
    } else if records[0].ip@ == ip {
        Some(records[0])
    } else {
        find_by_ip(records.skip(1), ip)
    }
}

/// The first record with this udid, if any.
pub open spec fn find_by_udid(records: Seq<DeserializedClient>, udid: Seq<char>) -> Option<
    DeserializedClient,
>
    decreases records.len(),
{
    if records.len() == 0 {
        None
    } else if records[0].udid@ == udid {
        Some(records[0])
    } else {
        find_by_udid(records.skip(1), udid)
    }
}

/// The first pairing attempt with this code, if any.
pub open spec fn find_code(attempts: Seq<PairPotential>, code: u16) -> Option<PairPotential>
    decreases attempts.len(),
{
    if attempts.len() == 0 {
        None
    } else if attempts[0].code == code {
        Some(attempts[0])
    } else {
        find_code(attempts.skip(1), code)
    }
}

/// Skipping a prefix with no matching ip does not change which record an ip
/// lookup finds.
proof fn lemma_find_by_ip_skip(records: Seq<DeserializedClient>, ip: Seq<char>, i: int)
    requires
        0 <= i <= records.len(),
        forall|j: int| 0 <= j < i ==> (#[trigger] records[j]).ip@ != ip,
    ensures
        find_by_ip(records, ip) == find_by_ip(records.skip(i), ip),
    decreases i,
{
    if i == 0 {
        assert(records.skip(0) =~= records);
    } else {
        lemma_find_by_ip_skip(records, ip, i - 1);
        assert(records.skip(i - 1)[0] == records[i - 1]);
        assert(records.skip(i - 1).skip(1) =~= records.skip(i));
    }
}

/// If no record carries the ip, the lookup finds nothing.
pub proof fn lemma_find_by_ip_none(records: Seq<DeserializedClient>, ip: Seq<char>)
    requires
        forall|j: int| 0 <= j < records.len() ==> (#[trigger] records[j]).ip@ != ip,
    ensures
        find_by_ip(records, ip) is None,
{
    lemma_find_by_ip_skip(records, ip, records.len() as int);
    assert(records.skip(records.len() as int) =~= Seq::<DeserializedClient>::empty());
}

/// If the records before `i` miss the ip and `records[i]` carries it, the
/// lookup finds `records[i]`.
proof fn lemma_find_by_ip_hit(records: Seq<DeserializedClient>, ip: Seq<char>, i: int)
    requires
        0 <= i < records.len(),
        forall|j: int| 0 <= j < i ==> (#[trigger] records[j]).ip@ != ip,
        records[i].ip@ == ip,
    ensures
        find_by_ip(records, ip) == Some(records[i]),
{
    lemma_find_by_ip_skip(records, ip, i);
    assert(records.skip(i)[0] == records[i]);
}

/// Skipping a prefix with no matching udid does not change which record a
/// udid lookup finds.
proof fn lemma_find_by_udid_skip(records: Seq<DeserializedClient>, udid: Seq<char>, i: int)
    requires
        0 <= i <= records.len(),
        forall|j: int| 0 <= j < i ==> (#[trigger] records[j]).udid@ != udid,
    ensures
        find_by_udid(records, udid) == find_by_udid(records.skip(i), udid),
    decreases i,
{
    if i == 0 {
        assert(records.skip(0) =~= records);
    } else {
        lemma_find_by_udid_skip(records, udid, i - 1);
        assert(records.skip(i - 1)[0] == records[i - 1]);
        assert(records.skip(i - 1).skip(1) =~= records.skip(i));
    }
}

/// If no record carries the udid, the lookup finds nothing.
proof fn lemma_find_by_udid_none(records: Seq<DeserializedClient>, udid: Seq<char>)
    requires
        forall|j: int| 0 <= j < records.len() ==> (#[trigger] records[j]).udid@ != udid,
    ensures
        find_by_udid(records, udid) is None,
{
    lemma_find_by_udid_skip(records, udid, records.len() as int);
    assert(records.skip(records.len() as int) =~= Seq::<DeserializedClient>::empty());
}

/// If the records before `i` miss the udid and `records[i]` carries it, the
/// lookup finds `records[i]`.
proof fn lemma_find_by_udid_hit(records: Seq<DeserializedClient>, udid: Seq<char>, i: int)
    requires
        0 <= i < records.len(),
        forall|j: int| 0 <= j < i ==> (#[trigger] records[j]).udid@ != udid,
        records[i].udid@ == udid,
    ensures
        find_by_udid(records, udid) == Some(records[i]),
{
    lemma_find_by_udid_skip(records, udid, i);
    assert(records.skip(i)[0] == records[i]);
}

/// Skipping a prefix with no matching code does not change which attempt a
/// code lookup finds.
proof fn lemma_find_code_skip(attempts: Seq<PairPotential>, code: u16, i: int)
    requires
        0 <= i <= attempts.len(),
        forall|j: int| 0 <= j < i ==> (#[trigger] attempts[j]).code != code,
    ensures
        find_code(attempts, code) == find_code(attempts.skip(i), code),
    decreases i,
{
    if i == 0 {
        assert(attempts.skip(0) =~= attempts);
    } else {
        lemma_find_code_skip(attempts, code, i - 1);
        assert(attempts.skip(i - 1)[0] == attempts[i - 1]);
        assert(attempts.skip(i - 1).skip(1) =~= attempts.skip(i));
    }
}

/// If no attempt carries the code, the lookup finds nothing.
proof fn lemma_find_code_none(attempts: Seq<PairPotential>, code: u16)
    requires
        forall|j: int| 0 <= j < attempts.len() ==> (#[trigger] attempts[j]).code != code,
    ensures
        find_code(attempts, code) is None,
{
    lemma_find_code_skip(attempts, code, attempts.len() as int);
    assert(attempts.skip(attempts.len() as int) =~= Seq::<PairPotential>::empty());
}

/// If the attempts before `i` miss the code and `attempts[i]` carries it,
/// the lookup finds `attempts[i]`.
proof fn lemma_find_code_hit(attempts: Seq<PairPotential>, code: u16, i: int)
    requires
        0 <= i < attempts.len(),
        forall|j: int| 0 <= j < i ==> (#[trigger] attempts[j]).code != code,
        attempts[i].code == code,
    ensures
        find_code(attempts, code) == Some(attempts[i]),
{
    lemma_find_code_skip(attempts, code, i);
    assert(attempts.skip(i)[0] == attempts[i]);
}

/// The pairing attempts after a code is consumed: every attempt carrying the
/// code is gone, the rest keep their order.
pub open spec fn without_code(attempts: Seq<PairPotential>, code: u16) -> Seq<PairPotential>
    decreases attempts.len(),
{
    if attempts.len() == 0 {
        Seq::empty()
    } else if attempts.last().code == code {
        without_code(attempts.drop_last(), code)
    } else {
        without_code(attempts.drop_last(), code).push(attempts.last())
    }
}

/// At most one record per ip and per udid.
pub open spec fn records_wf(records: Seq<DeserializedClient>) -> bool {
    forall|i: int, j: int|
        0 <= i < j < records.len() ==> (#[trigger] records[i]).ip@ != (
        #[trigger] records[j]).ip@ && records[i].udid@ != records[j].udid@
}

/// Every live pairing code lies in the allocation range.
pub open spec fn attempts_wf(attempts: Seq<PairPotential>) -> bool {
    forall|i: int|
        0 <= i < attempts.len() ==> 10000 <= (#[trigger] attempts[i]).code < 65535
}

/// The path of the on-disk pairing credential for a udid.
pub open spec fn pairing_path(storage: Seq<char>, udid: Seq<char>) -> Seq<char> {
    storage + "/"@ + udid + ".plist"@
}

impl Backend {
    /// The registry invariant: record keys unique, pairing codes in range.
    pub open spec fn wf(self) -> bool {
        records_wf(self.deserialized_clients@) && attempts_wf(self.pair_potential@)
    }

    /// Builds a registry from records read off disk. Records that repeat an
    /// earlier record's ip or udid are dropped, so the key-uniqueness
    /// invariant holds whatever the file held; a well-formed file is taken
    /// as it is.
    pub fn load(
        records: Vec<DeserializedClient>,
        allowed_subnet: String,
        database_path: String,
        plist_storage: String,
        dmg_path: String,
        netmuxd_address: Option<String>,
    ) -> (b: Backend)
        ensures
            b.wf(),
            records_wf(records@) ==> b.deserialized_clients@ == records@,
            b.allowed_subnet == allowed_subnet,
            b.database_path == database_path,
            b.plist_storage == plist_storage,
            b.dmg_path == dmg_path,
            b.netmuxd_address == netmuxd_address,
            b.pair_potential@.len() == 0,
            b.counter.launched == 0 && b.counter.fetched == 0 && b.counter.attached == 0
                && b.counter.netmuxd == 0,
    {
        let ghost orig = records@;
        let mut rest = records;
        let mut kept: Vec<DeserializedClient> = Vec::new();
        let ghost mut k: int = 0;
        while rest.len() > 0
            invariant
                0 <= k <= orig.len(),
                rest@ == orig.skip(k),
                records_wf(kept@),
                records_wf(orig) ==> kept@ == orig.take(k),
            decreases rest@.len(),
        {
            let rec = rest.remove(0);
            proof {
                assert(orig.skip(k)[0] == orig[k]);
                assert(rec == orig[k]);
                assert(rest@ =~= orig.skip(k + 1));
            }
            let dup_ip = ip_index(&kept, &rec.ip);
            let dup_udid = udid_index(&kept, &rec.udid);
            if dup_ip.is_none() && dup_udid.is_none() {
                let ghost before = kept@;
                kept.push(rec);
                proof {
                    assert forall|i: int, j: int| 0 <= i < j < kept@.len() implies (
                    #[trigger] kept@[i]).ip@ != (#[trigger] kept@[j]).ip@ && kept@[i].udid@
                        != kept@[j].udid@ by {
                        if j < kept@.len() - 1 {
                            assert(kept@[i] == before[i] && kept@[j] == before[j]);
                        } else {
                            assert(kept@[i] == before[i] && kept@[j] == rec);
                        }
                    }
                    if records_wf(orig) {
                        assert(kept@ =~= orig.take(k + 1));
                    }
                }
            } else {
                proof {
                    if records_wf(orig) {
                        if dup_ip is Some {
                            let i = dup_ip->Some_0 as int;
                            assert(orig.take(k)[i] == orig[i]);
                            assert(orig[i].ip@ == orig[k].ip@);
                            assert(false);
                        } else {
                            let i = dup_udid->Some_0 as int;
                            assert(orig.take(k)[i] == orig[i]);
                            assert(orig[i].udid@ == orig[k].udid@);
                            assert(false);
                        }
                    }
                }
            }
            proof {
                k = k + 1;
            }
        }
        proof {
            assert(orig.skip(k).len() == orig.len() - k);
            if records_wf(orig) {
                assert(orig.take(k) =~= orig);
            }
        }
        Backend {
            deserialized_clients: kept,
            allowed_subnet,
            database_path,
            plist_storage,
            dmg_path,
            netmuxd_address,
            pair_potential: Vec::new(),
            counter: Counter {
                launched: 0,
                fetched: 0,
                attached: 0,
                netmuxd: 0,
                uptime: unix_now_seconds(),
            },
        }
    }

    /// Whether a peer address is allowed to use the service: true exactly
    /// when the configured subnet is a well-formed CIDR block, the address a
    /// well-formed IPv4 address, and the address lies in the subnet.
    pub fn check_ip(&self, ip: &str) -> (r: bool)
        ensures
            r == crate::subnet::subnet_allows(self.allowed_subnet@, ip@),
    {
        crate::subnet::check_access(self.allowed_subnet.as_str(), ip)
    }

    /// Registers a device. Rejected when a record with the same ip or the
    /// same udid already exists; otherwise the record is appended with the
    /// current time as `last_seen`.
    pub fn register_client(&mut self, ip: String, udid: String) -> (r: Result<(), RegistryError>)
        requires
            old(self).wf(),
        ensures
            final(self).wf(),
            final(self).allowed_subnet == old(self).allowed_subnet,
            final(self).database_path == old(self).database_path,
            final(self).plist_storage == old(self).plist_storage,
            final(self).dmg_path == old(self).dmg_path,
            final(self).netmuxd_address == old(self).netmuxd_address,
            final(self).pair_potential == old(self).pair_potential,
            final(self).counter == old(self).counter,
            has_ip(old(self).deserialized_clients@, ip@) || has_udid(
                old(self).deserialized_clients@,
                udid@,
            ) ==> r == Err::<(), RegistryError>(RegistryError::AlreadyRegistered)
                && final(self).deserialized_clients == old(self).deserialized_clients,
            !has_ip(old(self).deserialized_clients@, ip@) && !has_udid(
                old(self).deserialized_clients@,
                udid@,
            ) ==> r == Ok::<(), RegistryError>(()) && exists|t: u64|
                final(self).deserialized_clients@ == old(self).deserialized_clients@.push(
                    (DeserializedClient { ip: ip, udid: udid, last_seen: t }),
                ),
    {
        if ip_index(&self.deserialized_clients, &ip).is_some() || udid_index(
            &self.deserialized_clients,
            &udid,
        ).is_some() {
            return Err(RegistryError::AlreadyRegistered);
        }
        let now = unix_now_seconds();
        let ghost before = self.deserialized_clients@;
        self.deserialized_clients.push(DeserializedClient { ip, udid, last_seen: now });
        proof {
            assert(final(self).deserialized_clients@ == before.push(
                final(self).deserialized_clients@.last(),
            ));
        }
        Ok(())
    }

    /// Removes the record with this ip and reports its udid, so the caller
    /// can best-effort delete that device's pairing credential; `NotFound`
    /// and no change when no record matches.
    pub fn unregister_client(&mut self, ip: String) -> (r: Result<String, RegistryError>)
        requires
            old(self).wf(),
        ensures
            final(self).wf(),
            final(self).allowed_subnet == old(self).allowed_subnet,
            final(self).database_path == old(self).database_path,
            final(self).plist_storage == old(self).plist_storage,
            final(self).dmg_path == old(self).dmg_path,
            final(self).netmuxd_address == old(self).netmuxd_address,
            final(self).pair_potential == old(self).pair_potential,
            final(self).counter == old(self).counter,
            !has_ip(old(self).deserialized_clients@, ip@) ==> r == Err::<String, RegistryError>(
                RegistryError::NotFound,
            ) && final(self).deserialized_clients == old(self).deserialized_clients,
            has_ip(old(self).deserialized_clients@, ip@) ==> exists|i: int|
                0 <= i < old(self).deserialized_clients@.len()
                    && (#[trigger] old(self).deserialized_clients@[i]).ip@ == ip@
                    && final(self).deserialized_clients@
                        == old(self).deserialized_clients@.remove(i)
                    && r == Ok::<String, RegistryError>(old(self).deserialized_clients@[i].udid),
            !has_ip(final(self).deserialized_clients@, ip@),
    {
        match ip_index(&self.deserialized_clients, &ip) {
            Some(i) => {
                let removed = self.deserialized_clients.remove(i);
                proof {
                    let fin = final(self).deserialized_clients@;
                    let bef = old(self).deserialized_clients@;
                    assert forall|j: int| 0 <= j < fin.len() implies (#[trigger] fin[j]).ip@
                        != ip@ by {
                        if j < i {
                            assert(fin[j] == bef[j]);
                        } else {
                            assert(fin[j] == bef[j + 1]);
                        }
                    }
                }
                Ok(removed.udid)
            },
            None => Err(RegistryError::NotFound),
        }
    }

    /// Builds the session value for the device registered at this ip,
    /// without touching the record. The session carries the pairing-file
    /// path under the plist storage directory and the DMG cache path.
    pub fn get_by_ip(&self, ip: &str) -> (r: Option<Client>)
        ensures
            match find_by_ip(self.deserialized_clients@, ip@) {
                Some(c) => r matches Some(client) && client.ip@ == c.ip@ && client.udid@ == c.udid@
                    && client.pairing_file@ == pairing_path(self.plist_storage@, c.udid@)
                    && client.dmg_path@ == self.dmg_path@,
                None => r is None,
            },
            r is Some <==> has_ip(self.deserialized_clients@, ip@),
    {
        let key: String = ip.to_owned();
        match ip_index(&self.deserialized_clients, &key) {
            Some(i) => {
                let rec = &self.deserialized_clients[i];
                proof {
                    lemma_find_by_ip_hit(self.deserialized_clients@, ip@, i as int);
                }
                Some(self.build_session(rec))
            },
            None => {
                proof {
                    lemma_find_by_ip_none(self.deserialized_clients@, ip@);
                }
                None
            },
        }
    }

    /// Builds the session value for the device with this udid, without
    /// touching the record.
    pub fn _get_by_udid(&self, udid: &str) -> (r: Option<Client>)
        ensures
            match find_by_udid(self.deserialized_clients@, udid@) {
                Some(c) => r matches Some(client) && client.ip@ == c.ip@ && client.udid@ == c.udid@
                    && client.pairing_file@ == pairing_path(self.plist_storage@, c.udid@)
                    && client.dmg_path@ == self.dmg_path@,
                None => r is None,
            },
            r is Some <==> has_udid(self.deserialized_clients@, udid@),
    {
        let key: String = udid.to_owned();
        match udid_index(&self.deserialized_clients, &key) {
            Some(i) => {
                let rec = &self.deserialized_clients[i];
                proof {
                    lemma_find_by_udid_hit(self.deserialized_clients@, udid@, i as int);
                }
                Some(self.build_session(rec))
            },
            None => {
                proof {
                    lemma_find_by_udid_none(self.deserialized_clients@, udid@);
                }
                None
            },
        }
    }

    /// The path of the pairing credential for this udid, under the
    /// configured plist storage directory.
    pub fn pairing_file_path(&self, udid: &str) -> (r: String)
        ensures
            r@ == pairing_path(self.plist_storage@, udid@),
    {
        let mut path = self.plist_storage.clone();
        path.append("/");
        path.append(udid);
        path.append(".plist");
        path
    }

    fn build_session(&self, rec: &DeserializedClient) -> (r: Client)
        ensures
            r.ip@ == rec.ip@,
            r.udid@ == rec.udid@,
            r.pairing_file@ == pairing_path(self.plist_storage@, rec.udid@),
            r.dmg_path@ == self.dmg_path@,
    {
        let path = self.pairing_file_path(rec.udid.as_str());
        rec.to_client(&path, &self.dmg_path)
    }

    /// Whether an app's display name marks it as one of the known, preferred
    /// apps: true exactly when one of the known names occurs in it.
    pub fn prefered_app(name: &str, known_apps: &Vec<String>) -> (r: bool)
        ensures
            r == crate::apps::matches_known(name@, known_apps@),
    {
        crate::apps::any_known_app(name, known_apps)
    }

    /// Opens a pairing attempt for this ip: allocates a fresh code in
    /// `[10000, 65535)`, records the attempt, and hands the code back.
    pub fn potential_pair(&mut self, ip: String) -> (code: u16)
        requires
            old(self).wf(),
        ensures
            final(self).wf(),
            10000 <= code < 65535,
            final(self).pair_potential@ == old(self).pair_potential@.push(
                (PairPotential { ip: ip, code }),
            ),
            final(self).deserialized_clients == old(self).deserialized_clients,
            final(self).counter == old(self).counter,
            final(self).allowed_subnet == old(self).allowed_subnet,
            final(self).database_path == old(self).database_path,
            final(self).plist_storage == old(self).plist_storage,
            final(self).dmg_path == old(self).dmg_path,
            final(self).netmuxd_address == old(self).netmuxd_address,
    {
        let code = random_pairing_code();
        self.pair_potential.push(PairPotential { ip, code });
        proof {
            let fin = final(self).pair_potential@;
            assert forall|i: int| 0 <= i < fin.len() implies 10000 <= (#[trigger] fin[i]).code
                < 65535 by {
                if i < fin.len() - 1 {
                    assert(fin[i] == old(self).pair_potential@[i]);
                }
            }
        }
        code
    }

    /// The ip that asked for this pairing code, if the code is live.
    pub fn check_code(&self, code: u16) -> (r: Option<String>)
        ensures
            match find_code(self.pair_potential@, code) {
                Some(p) => r == Some(p.ip),
                None => r is None,
            },
    {
        let n = self.pair_potential.len();
        let mut i: usize = 0;
        while i < n
            invariant
                n == self.pair_potential@.len(),
                0 <= i <= n,
                forall|j: int| 0 <= j < i ==> (#[trigger] self.pair_potential@[j]).code != code,
            decreases n - i,
        {
            if self.pair_potential[i].code == code {
                proof {
                    lemma_find_code_hit(self.pair_potential@, code, i as int);
                }
                return Some(self.pair_potential[i].ip.clone());
            }
            i = i + 1;
        }
        proof {
            lemma_find_code_none(self.pair_potential@, code);
        }
        None
    }

    /// Consumes a pairing code: every attempt carrying it is removed and the
    /// other attempts keep their order.
    pub fn remove_code(&mut self, code: u16)
        requires
            old(self).wf(),
        ensures
            final(self).wf(),
            final(self).pair_potential@ == without_code(old(self).pair_potential@, code),
            final(self).deserialized_clients == old(self).deserialized_clients,
            final(self).counter == old(self).counter,
            final(self).allowed_subnet == old(self).allowed_subnet,
            final(self).database_path == old(self).database_path,
            final(self).plist_storage == old(self).plist_storage,
            final(self).dmg_path == old(self).dmg_path,
            final(self).netmuxd_address == old(self).netmuxd_address,
    {
        let ghost orig = old(self).pair_potential@;
        let mut rest: Vec<PairPotential> = Vec::new();
        core::mem::swap(&mut self.pair_potential, &mut rest);
        let ghost mut k: int = 0;
        proof {
            assert(orig.take(0) =~= Seq::<PairPotential>::empty());
        }
        while rest.len() > 0
            invariant
                rest@ == orig.skip(k),
                0 <= k <= orig.len(),
                self.pair_potential@ == without_code(orig.take(k), code),
                self.deserialized_clients == old(self).deserialized_clients,
                self.counter == old(self).counter,
                self.allowed_subnet == old(self).allowed_subnet,
                self.database_path == old(self).database_path,
                self.plist_storage == old(self).plist_storage,
                self.dmg_path == old(self).dmg_path,
                self.netmuxd_address == old(self).netmuxd_address,
            decreases rest@.len(),
        {
            let p = rest.remove(0);
            proof {
                assert(orig.skip(k)[0] == orig[k]);
                assert(p == orig[k]);
                assert(rest@ =~= orig.skip(k + 1));
                assert(orig.take(k + 1).drop_last() =~= orig.take(k));
                assert(orig.take(k + 1).last() == orig[k]);
            }
            if p.code != code {
                self.pair_potential.push(p);
            }
            proof {
                k = k + 1;
            }
        }
        proof {
            assert(orig.skip(k).len() == orig.len() - k);
            assert(orig.take(k) =~= orig);
            lemma_without_code_wf(orig, code);
        }
    }
}

/// Consuming a code keeps the surviving attempts well formed, and none of
/// them carries the consumed code.
pub proof fn lemma_without_code_wf(attempts: Seq<PairPotential>, code: u16)
    requires
        attempts_wf(attempts),
    ensures
        attempts_wf(without_code(attempts, code)),
        forall|i: int|
            0 <= i < without_code(attempts, code).len() ==> (#[trigger] without_code(
                attempts,
                code,
            )[i]).code != code,
    decreases attempts.len(),
{
    if attempts.len() > 0 {
        assert(attempts_wf(attempts.drop_last())) by {
            assert forall|i: int| 0 <= i < attempts.drop_last().len() implies 10000 <= (
            #[trigger] attempts.drop_last()[i]).code < 65535 by {
                assert(attempts.drop_last()[i] == attempts[i]);
            }
        }
        lemma_without_code_wf(attempts.drop_last(), code);
        assert(10000 <= attempts[attempts.len() - 1].code < 65535);
        let out = without_code(attempts, code);
        let sub = without_code(attempts.drop_last(), code);
        if attempts.last().code != code {
            assert forall|i: int| 0 <= i < out.len() implies 10000 <= (#[trigger] out[i]).code
                < 65535 && out[i].code != code by {
                if i < out.len() - 1 {
                    assert(out[i] == sub[i]);
                } else {
                    assert(out[i] == attempts.last());
                }
            }
        }
    }
}

/// Some pairing attempt in `attempts` carries this code.
pub open spec fn has_code(attempts: Seq<PairPotential>, code: u16) -> bool {
    exists|i: int| 0 <= i < attempts.len() && (#[trigger] attempts[i]).code == code
}

/// Law: registering a device and then looking its ip up finds exactly the
/// freshly registered record, which carries the registered udid.
pub proof fn lemma_register_then_lookup(before: Seq<DeserializedClient>, rec: DeserializedClient)
    requires
        !has_ip(before, rec.ip@),
    ensures
        find_by_ip(before.push(rec), rec.ip@) == Some(rec),
{
    let pushed = before.push(rec);
    assert forall|j: int| 0 <= j < before.len() implies (#[trigger] pushed[j]).ip@ != rec.ip@ by {
        assert(pushed[j] == before[j]);
    }
    lemma_find_by_ip_hit(pushed, rec.ip@, before.len() as int);
}

/// Law: an ip that no record carries is not found, so unregistering an ip
/// makes a subsequent lookup of that ip come back empty.
pub proof fn lemma_absent_ip_lookup_none(records: Seq<DeserializedClient>, ip: Seq<char>)
    requires
        !has_ip(records, ip),
    ensures
        find_by_ip(records, ip) is None,
{
    assert forall|j: int| 0 <= j < records.len() implies (#[trigger] records[j]).ip@ != ip by {
        assert(!has_ip(records, ip));
    }
    lemma_find_by_ip_none(records, ip);
}

/// Law: a pairing attempt whose code no earlier attempt carries resolves to
/// the ip it was opened for.
pub proof fn lemma_pair_code_resolves(attempts: Seq<PairPotential>, p: PairPotential)
    requires
        !has_code(attempts, p.code),
    ensures
        find_code(attempts.push(p), p.code) == Some(p),
{
    let pushed = attempts.push(p);
    assert forall|j: int| 0 <= j < attempts.len() implies (#[trigger] pushed[j]).code != p.code by {
        assert(pushed[j] == attempts[j]);
    }
    lemma_find_code_hit(pushed, p.code, attempts.len() as int);
}

/// No surviving attempt carries a consumed code.
pub proof fn lemma_without_code_gone(attempts: Seq<PairPotential>, code: u16)
    ensures
        forall|i: int|
            0 <= i < without_code(attempts, code).len() ==> (#[trigger] without_code(
                attempts,
                code,
            )[i]).code != code,
    decreases attempts.len(),
{
    if attempts.len() > 0 {
        lemma_without_code_gone(attempts.drop_last(), code);
        let out = without_code(attempts, code);
        let sub = without_code(attempts.drop_last(), code);
        if attempts.last().code != code {
            assert forall|i: int| 0 <= i < out.len() implies (#[trigger] out[i]).code != code by {
                if i < out.len() - 1 {
                    assert(out[i] == sub[i]);
                } else {
                    assert(out[i] == attempts.last());
                }
            }
        }
    }
}

/// Law: once a pairing code is consumed, it no longer resolves.
pub proof fn lemma_removed_code_resolves_none(attempts: Seq<PairPotential>, code: u16)
    ensures
        find_code(without_code(attempts, code), code) is None,
{
    lemma_without_code_gone(attempts, code);
    lemma_find_code_none(without_code(attempts, code), code);
}

/// The index of the first record with this ip, if any.
fn ip_index(records: &Vec<DeserializedClient>, ip: &String) -> (r: Option<usize>)
    ensures
        match r {
            Some(i) => i < records@.len() && records@[i as int].ip@ == ip@ && forall|j: int|
                0 <= j < i ==> (#[trigger] records@[j]).ip@ != ip@,
            None => !has_ip(records@, ip@),
        },
{
    let n = records.len();
    let mut i: usize = 0;
    while i < n
        invariant
            n == records@.len(),
            0 <= i <= n,
            forall|j: int| 0 <= j < i ==> (#[trigger] records@[j]).ip@ != ip@,
        decreases n - i,
    {
        if records[i].ip == *ip {
            return Some(i);
        }
        i = i + 1;
    }
    None
}

/// The index of the first record with this udid, if any.
fn udid_index(records: &Vec<DeserializedClient>, udid: &String) -> (r: Option<usize>)
    ensures
        match r {
            Some(i) => i < records@.len() && records@[i as int].udid@ == udid@ && forall|j: int|
                0 <= j < i ==> (#[trigger] records@[j]).udid@ != udid@,
            None => !has_udid(records@, udid@),
        },
{
    let n = records.len();
    let mut i: usize = 0;
    while i < n
        invariant
            n == records@.len(),
            0 <= i <= n,
            forall|j: int| 0 <= j < i ==> (#[trigger] records@[j]).udid@ != udid@,
        decreases n - i,
    {
        if records[i].udid == *udid {
            return Some(i);
        }
        i = i + 1;
    }
    None
}

/// Relies on std's SystemTime: seconds since the unix epoch, by the system
/// clock; zero if the clock reads before the epoch. The result depends on
/// the clock, so nothing is promised of it.
#[verifier::external_body]
fn unix_now_seconds() -> u64 {
    match std::time::SystemTime::now().duration_since(std::time::UNIX_EPOCH) {
        Ok(d) => d.as_secs(),
        Err(_) => 0,
    }
}

/// Relies on rand's Rng::gen_range: a value uniform in the given range,
/// which must be non-empty. Only the range is promised; the draw itself is
/// random.
#[verifier::external_body]
fn random_pairing_code() -> (code: u16)
    ensures
        10000 <= code < 65535,
{
    rand::Rng::gen_range(&mut rand::thread_rng(), 10000..65535)
}

} // verus!
