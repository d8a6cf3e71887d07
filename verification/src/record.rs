//! The audit record data model: one parsed line of kernel audit output.
//!
//! A record promotes three attributes out of the raw `key=value` pairs: the
//! record type (resolved against a static lookup table), the kernel-assigned
//! audit id, and the remaining fields as an ordered string-to-string map.

use crate::text::str_eq_str;
use vstd::prelude::*;
use vstd::string::*;

verus! {

/// Kernel-assigned identity of one audited action: the
/// `audit(<seconds>.<millis>:<sequence>)` token shared by every line the
/// kernel emits for that action.
#[derive(Clone, Copy, PartialEq, Eq, Hash, Debug, Structural)]
pub struct AuditId {
    pub seconds: u64,
    pub millis: u32,
    pub sequence: u64,
}

/// Enumerated kernel event category. Raw strings absent from the lookup
/// table map to `Unknown` rather than failing: unknown types are still
/// valid, correlatable records.
#[derive(Debug, Clone)]
pub enum RecordType {
    NetfilterCfg,
    Syscall,
    UserStart,
    CryptoKeyUser,
    CredRefr,
    SystemShutdown,
    CredAcq,
    SystemRunlevel,
    ServiceStop,
    AnomAbend,
    UserCmd,
    Path,
    DaemonStart,
    Proctitle,
    ServiceStart,
    ConfigChange,
    Cwd,
    UserEnd,
    UserAuth,
    DaemonEnd,
    Sockaddr,
    SystemBoot,
    Login,
    UserAcct,
    CredDisp,
    Unknown(String),
}

/// Error of `RecordType::from_str`: the string names no table entry.
#[derive(Debug, Clone, Copy, PartialEq, Eq, Structural)]
pub struct UnknownRecordType;

/// The raw strings the static record-type table knows.
pub open spec fn is_known_type(s: Seq<char>) -> bool {
    ||| s == "NETFILTER_CFG"@
    ||| s == "SYSCALL"@
    ||| s == "USER_START"@
    ||| s == "CRYPTO_KEY_USER"@
    ||| s == "CRED_REFR"@
    ||| s == "SYSTEM_SHUTDOWN"@
    ||| s == "CRED_ACQ"@
    ||| s == "SYSTEM_RUNLEVEL"@
    ||| s == "SERVICE_STOP"@
    ||| s == "ANOM_ABEND"@
    ||| s == "USER_CMD"@
    ||| s == "PATH"@
    ||| s == "DAEMON_START"@
    ||| s == "PROCTITLE"@
    ||| s == "SERVICE_START"@
    ||| s == "CONFIG_CHANGE"@
    ||| s == "CWD"@
    ||| s == "USER_END"@
    ||| s == "USER_AUTH"@
    ||| s == "DAEMON_END"@
    ||| s == "SOCKADDR"@
    ||| s == "SYSTEM_BOOT"@
    ||| s == "LOGIN"@
    ||| s == "USER_ACCT"@
    ||| s == "CRED_DISP"@
}

/// No table entry is the empty string.
pub proof fn lemma_known_types_nonempty()
    ensures
        !is_known_type(Seq::<char>::empty()),
{
    reveal_strlit("NETFILTER_CFG");
    reveal_strlit("SYSCALL");
    reveal_strlit("USER_START");
    reveal_strlit("CRYPTO_KEY_USER");
    reveal_strlit("CRED_REFR");
    reveal_strlit("SYSTEM_SHUTDOWN");
    reveal_strlit("CRED_ACQ");
    reveal_strlit("SYSTEM_RUNLEVEL");
    reveal_strlit("SERVICE_STOP");
    reveal_strlit("ANOM_ABEND");
    reveal_strlit("USER_CMD");
    reveal_strlit("PATH");
    reveal_strlit("DAEMON_START");
    reveal_strlit("PROCTITLE");
    reveal_strlit("SERVICE_START");
    reveal_strlit("CONFIG_CHANGE");
    reveal_strlit("CWD");
    reveal_strlit("USER_END");
    reveal_strlit("USER_AUTH");
    reveal_strlit("DAEMON_END");
    reveal_strlit("SOCKADDR");
    reveal_strlit("SYSTEM_BOOT");
    reveal_strlit("LOGIN");
    reveal_strlit("USER_ACCT");
    reveal_strlit("CRED_DISP");
    assert(Seq::<char>::empty().len() == 0);
    assert(("NETFILTER_CFG"@).len() != 0);
    assert(("SYSCALL"@).len() != 0);
    assert(("USER_START"@).len() != 0);
    assert(("CRYPTO_KEY_USER"@).len() != 0);
    assert(("CRED_REFR"@).len() != 0);
    assert(("SYSTEM_SHUTDOWN"@).len() != 0);
    assert(("CRED_ACQ"@).len() != 0);
    assert(("SYSTEM_RUNLEVEL"@).len() != 0);
    assert(("SERVICE_STOP"@).len() != 0);
    assert(("ANOM_ABEND"@).len() != 0);
    assert(("USER_CMD"@).len() != 0);
    assert(("PATH"@).len() != 0);
    assert(("DAEMON_START"@).len() != 0);
    assert(("PROCTITLE"@).len() != 0);
    assert(("SERVICE_START"@).len() != 0);
    assert(("CONFIG_CHANGE"@).len() != 0);
    assert(("CWD"@).len() != 0);
    assert(("USER_END"@).len() != 0);
    assert(("USER_AUTH"@).len() != 0);
    assert(("DAEMON_END"@).len() != 0);
    assert(("SOCKADDR"@).len() != 0);
    assert(("SYSTEM_BOOT"@).len() != 0);
    assert(("LOGIN"@).len() != 0);
    assert(("USER_ACCT"@).len() != 0);
    assert(("CRED_DISP"@).len() != 0);
}

/// The raw string a record type stands for.
pub open spec fn rt_raw(t: RecordType) -> Seq<char> {
    match t {
        RecordType::NetfilterCfg => "NETFILTER_CFG"@,
        RecordType::Syscall => "SYSCALL"@,
        RecordType::UserStart => "USER_START"@,
        RecordType::CryptoKeyUser => "CRYPTO_KEY_USER"@,
        RecordType::CredRefr => "CRED_REFR"@,
        RecordType::SystemShutdown => "SYSTEM_SHUTDOWN"@,
        RecordType::CredAcq => "CRED_ACQ"@,
        RecordType::SystemRunlevel => "SYSTEM_RUNLEVEL"@,
        RecordType::ServiceStop => "SERVICE_STOP"@,
        RecordType::AnomAbend => "ANOM_ABEND"@,
        RecordType::UserCmd => "USER_CMD"@,
        RecordType::Path => "PATH"@,
        RecordType::DaemonStart => "DAEMON_START"@,
        RecordType::Proctitle => "PROCTITLE"@,
        RecordType::ServiceStart => "SERVICE_START"@,
        RecordType::ConfigChange => "CONFIG_CHANGE"@,
        RecordType::Cwd => "CWD"@,
        RecordType::UserEnd => "USER_END"@,
        RecordType::UserAuth => "USER_AUTH"@,
        RecordType::DaemonEnd => "DAEMON_END"@,
        RecordType::Sockaddr => "SOCKADDR"@,
        RecordType::SystemBoot => "SYSTEM_BOOT"@,
        RecordType::Login => "LOGIN"@,
        RecordType::UserAcct => "USER_ACCT"@,
        RecordType::CredDisp => "CRED_DISP"@,
        RecordType::Unknown(u) => u@,
    }
}

/// `t` is exactly what the table lookup yields for the raw string `s`:
/// the table's variant when `s` is known, otherwise `Unknown` carrying `s`.
pub open spec fn rt_matches(t: RecordType, s: Seq<char>) -> bool {
    match t {
        RecordType::Unknown(u) => u@ == s && !is_known_type(s),
        _ => rt_raw(t) == s,
    }
}

/// Record types compared by variant; `Unknown` values compare by the raw
/// string they carry.
pub open spec fn rt_eq(a: RecordType, b: RecordType) -> bool {
    match (a, b) {
        (RecordType::NetfilterCfg, RecordType::NetfilterCfg) => true,
        (RecordType::Syscall, RecordType::Syscall) => true,
        (RecordType::UserStart, RecordType::UserStart) => true,
        (RecordType::CryptoKeyUser, RecordType::CryptoKeyUser) => true,
        (RecordType::CredRefr, RecordType::CredRefr) => true,
        (RecordType::SystemShutdown, RecordType::SystemShutdown) => true,
        (RecordType::CredAcq, RecordType::CredAcq) => true,
        (RecordType::SystemRunlevel, RecordType::SystemRunlevel) => true,
        (RecordType::ServiceStop, RecordType::ServiceStop) => true,
        (RecordType::AnomAbend, RecordType::AnomAbend) => true,
        (RecordType::UserCmd, RecordType::UserCmd) => true,
        (RecordType::Path, RecordType::Path) => true,
        (RecordType::DaemonStart, RecordType::DaemonStart) => true,
        (RecordType::Proctitle, RecordType::Proctitle) => true,
        (RecordType::ServiceStart, RecordType::ServiceStart) => true,
        (RecordType::ConfigChange, RecordType::ConfigChange) => true,
        (RecordType::Cwd, RecordType::Cwd) => true,
        (RecordType::UserEnd, RecordType::UserEnd) => true,
        (RecordType::UserAuth, RecordType::UserAuth) => true,
        (RecordType::DaemonEnd, RecordType::DaemonEnd) => true,
        (RecordType::Sockaddr, RecordType::Sockaddr) => true,
        (RecordType::SystemBoot, RecordType::SystemBoot) => true,
        (RecordType::Login, RecordType::Login) => true,
        (RecordType::UserAcct, RecordType::UserAcct) => true,
        (RecordType::CredDisp, RecordType::CredDisp) => true,
        (RecordType::Unknown(x), RecordType::Unknown(y)) => x@ == y@,
        _ => false,
    }
}

impl RecordType {
    /// Resolve a raw `type=` string against the static record-type table.
    pub fn from_str(s: &str) -> (r: Result<RecordType, UnknownRecordType>)
        ensures
            match r {
                Ok(t) => is_known_type(s@) && rt_matches(t, s@),
                Err(_) => !is_known_type(s@),
            },
    {
        if str_eq_str(s, "NETFILTER_CFG") {
            Ok(RecordType::NetfilterCfg)
        } else if str_eq_str(s, "SYSCALL") {
            Ok(RecordType::Syscall)
        } else if str_eq_str(s, "USER_START") {
            Ok(RecordType::UserStart)
        } else if str_eq_str(s, "CRYPTO_KEY_USER") {
            Ok(RecordType::CryptoKeyUser)
        } else if str_eq_str(s, "CRED_REFR") {
            Ok(RecordType::CredRefr)
        } else if str_eq_str(s, "SYSTEM_SHUTDOWN") {
            Ok(RecordType::SystemShutdown)
        } else if str_eq_str(s, "CRED_ACQ") {
            Ok(RecordType::CredAcq)
        } else if str_eq_str(s, "SYSTEM_RUNLEVEL") {
            Ok(RecordType::SystemRunlevel)
        } else if str_eq_str(s, "SERVICE_STOP") {
            Ok(RecordType::ServiceStop)
        } else if str_eq_str(s, "ANOM_ABEND") {
            Ok(RecordType::AnomAbend)
        } else if str_eq_str(s, "USER_CMD") {
            Ok(RecordType::UserCmd)
        } else if str_eq_str(s, "PATH") {
            Ok(RecordType::Path)
        } else if str_eq_str(s, "DAEMON_START") {
            Ok(RecordType::DaemonStart)
        } else if str_eq_str(s, "PROCTITLE") {
            Ok(RecordType::Proctitle)
        } else if str_eq_str(s, "SERVICE_START") {
            Ok(RecordType::ServiceStart)
        } else if str_eq_str(s, "CONFIG_CHANGE") {
            Ok(RecordType::ConfigChange)
        } else if str_eq_str(s, "CWD") {
            Ok(RecordType::Cwd)
        } else if str_eq_str(s, "USER_END") {
            Ok(RecordType::UserEnd)
        } else if str_eq_str(s, "USER_AUTH") {
            Ok(RecordType::UserAuth)
        } else if str_eq_str(s, "DAEMON_END") {
            Ok(RecordType::DaemonEnd)
        } else if str_eq_str(s, "SOCKADDR") {
            Ok(RecordType::Sockaddr)
        } else if str_eq_str(s, "SYSTEM_BOOT") {
            Ok(RecordType::SystemBoot)
        } else if str_eq_str(s, "LOGIN") {
            Ok(RecordType::Login)
        } else if str_eq_str(s, "USER_ACCT") {
            Ok(RecordType::UserAcct)
        } else if str_eq_str(s, "CRED_DISP") {
            Ok(RecordType::CredDisp)
        } else {
            Err(UnknownRecordType)
        }
    }

    /// Table lookup that never fails: strings the table does not know come
    /// back as `Unknown`, carrying the raw string.
    pub fn resolve(s: &str) -> (r: RecordType)
        ensures
            rt_matches(r, s@),
    {
        match RecordType::from_str(s) {
            Ok(t) => t,
            Err(_) => RecordType::Unknown(s.to_owned()),
        }
    }

    /// Compare by the raw string each type stands for.
    pub fn same_type(&self, other: &RecordType) -> (r: bool)
        ensures
            r == rt_eq(*self, *other),
    {
        match (self, other) {
            (RecordType::NetfilterCfg, RecordType::NetfilterCfg) => true,
            (RecordType::Syscall, RecordType::Syscall) => true,
            (RecordType::UserStart, RecordType::UserStart) => true,
            (RecordType::CryptoKeyUser, RecordType::CryptoKeyUser) => true,
            (RecordType::CredRefr, RecordType::CredRefr) => true,
            (RecordType::SystemShutdown, RecordType::SystemShutdown) => true,
            (RecordType::CredAcq, RecordType::CredAcq) => true,
            (RecordType::SystemRunlevel, RecordType::SystemRunlevel) => true,
            (RecordType::ServiceStop, RecordType::ServiceStop) => true,
            (RecordType::AnomAbend, RecordType::AnomAbend) => true,
            (RecordType::UserCmd, RecordType::UserCmd) => true,
            (RecordType::Path, RecordType::Path) => true,
            (RecordType::DaemonStart, RecordType::DaemonStart) => true,
            (RecordType::Proctitle, RecordType::Proctitle) => true,
            (RecordType::ServiceStart, RecordType::ServiceStart) => true,
            (RecordType::ConfigChange, RecordType::ConfigChange) => true,
            (RecordType::Cwd, RecordType::Cwd) => true,
            (RecordType::UserEnd, RecordType::UserEnd) => true,
            (RecordType::UserAuth, RecordType::UserAuth) => true,
            (RecordType::DaemonEnd, RecordType::DaemonEnd) => true,
            (RecordType::Sockaddr, RecordType::Sockaddr) => true,
            (RecordType::SystemBoot, RecordType::SystemBoot) => true,
            (RecordType::Login, RecordType::Login) => true,
            (RecordType::UserAcct, RecordType::UserAcct) => true,
            (RecordType::CredDisp, RecordType::CredDisp) => true,
            (RecordType::Unknown(x), RecordType::Unknown(y)) => str_eq_str(
                x.as_str(),
                y.as_str(),
            ),
            _ => false,
        }
    }
}

impl PartialEq for RecordType {
    fn eq(&self, other: &RecordType) -> (r: bool) {
        self.same_type(other)
    }
}

impl vstd::std_specs::cmp::PartialEqSpecImpl for RecordType {
    open spec fn obeys_eq_spec() -> bool {
        true
    }

    open spec fn eq_spec(&self, other: &RecordType) -> bool {
        rt_eq(*self, *other)
    }
}

/// Position `i` holds the first field named `key`.
pub open spec fn first_key_at(fs: Seq<(Seq<char>, Seq<char>)>, key: Seq<char>, i: int) -> bool {
    &&& 0 <= i < fs.len()
    &&& fs[i].0 == key
    &&& forall|j: int| 0 <= j < i ==> fs[j].0 != key
}

/// Ordered mapping from field name to raw string value; insertion order is
/// preserved, since consumers rely on field order for display parity with
/// the original log.
#[derive(Debug, Clone)]
pub struct RecordFields {
    pub fields: Vec<(String, String)>,
}

impl View for RecordFields {
    type V = Seq<(Seq<char>, Seq<char>)>;

    open spec fn view(&self) -> Seq<(Seq<char>, Seq<char>)> {
        self.fields@.map_values(|p: (String, String)| (p.0@, p.1@))
    }
}

impl RecordFields {
    /// An empty field map.
    pub fn empty() -> (r: RecordFields)
        ensures
            r@ == Seq::<(Seq<char>, Seq<char>)>::empty(),
    {
        let r = RecordFields { fields: Vec::new() };
        proof {
            assert(r@ =~= Seq::<(Seq<char>, Seq<char>)>::empty());
        }
        r
    }

    /// Number of fields.
    pub fn len(&self) -> (n: usize)
        ensures
            n == self@.len(),
    {
        self.fields.len()
    }

    /// Append a field, keeping insertion order.
    pub fn push(&mut self, key: String, value: String)
        ensures
            final(self)@ == old(self)@.push((key@, value@)),
    {
        let ghost pre = self@;
        self.fields.push((key, value));
        proof {
            assert(self@ =~= pre.push((key@, value@)));
        }
    }

    /// The value of the first field named `key`, if any.
    pub fn get(&self, key: &str) -> (r: Option<&String>)
        ensures
            match r {
                Some(v) => exists|i: int| first_key_at(self@, key@, i) && v@ == self@[i].1,
                None => forall|i: int| 0 <= i < self@.len() ==> self@[i].0 != key@,
            },
    {
        let mut i: usize = 0;
        let n = self.fields.len();
        while i < n
            invariant
                0 <= i <= n,
                n == self@.len(),
                n == self.fields@.len(),
                forall|j: int| 0 <= j < i ==> self@[j].0 != key@,
            decreases n - i,
        {
            if str_eq_str(self.fields[i].0.as_str(), key) {
                proof {
                    assert(first_key_at(self@, key@, i as int));
                }
                return Some(&self.fields[i].1);
            }
            i += 1;
        }
        None
    }
}

/// One parsed audit line. Immutable once parsed; the audit id is always
/// present (its absence is a parse error, not a valid record).
#[derive(Debug, Clone)]
pub struct Record {
    pub record_type: RecordType,
    pub audit_id: AuditId,
    pub fields: RecordFields,
}

impl Record {
    /// Assemble a record from its promoted attributes and field map.
    pub fn new(record_type: RecordType, audit_id: AuditId, fields: RecordFields) -> (r: Record)
        ensures
            r.record_type == record_type,
            r.audit_id == audit_id,
            r.fields == fields,
    {
        Record { record_type, audit_id, fields }
    }
}

} // verus!
