//! The effective node configuration, and how values read from the
//! service configuration tree are applied to it. Reading the file itself
//! happens outside the library; the parsed keys and values arrive here as
//! plain strings.

use vstd::prelude::*;

use crate::meta::bytes_eq;
use crate::node_uri::all_digits;
use crate::node_uri::spec_decimal_value;
use vstd::string::StringSliceAdditionalSpecFns;

verus! {

/// TLS settings.
#[derive(Debug, Clone, PartialEq, Eq)]
pub struct TlsConfig {
    /// Whether TLS is used.
    pub enabled: bool,
    /// Certificate file path.
    pub cert_file: String,
    /// Private key file path.
    pub key_file: String,
    /// Certificate-authority file path.
    pub ca_file: String,
}

impl Default for TlsConfig {
    /// TLS off, with empty paths.
    fn default() -> (r: TlsConfig)
        ensures
            !r.enabled,
            r.cert_file@.len() == 0,
            r.key_file@.len() == 0,
            r.ca_file@.len() == 0,
    {
        TlsConfig {
            enabled: false,
            cert_file: String::new(),
            key_file: String::new(),
            ca_file: String::new(),
        }
    }
}

/// The effective configuration of one node.
#[derive(Debug, Clone, PartialEq, Eq)]
pub struct MeshConfig {
    /// This node's routing ID.
    pub node_id: u64,
    /// The node-to-node listening port.
    pub external_port: u16,
    /// The local RPC port.
    pub grpc_port: u16,
    /// The supervisor's address.
    pub supervisor_addr: String,
    /// TLS settings.
    pub tls: TlsConfig,
    /// The mesh's name.
    pub mesh_id: String,
    /// The mesh token. Held as given; never logged here.
    pub mesh_token: String,
    /// Operation timeout in seconds.
    pub timeout: u32,
}

impl Default for MeshConfig {
    /// Node 1001 listening on 10001, RPC on 50056, supervisor on
    /// localhost:50000, TLS off, mesh name `default-mesh`, a 30-second
    /// timeout.
    fn default() -> (r: MeshConfig)
        ensures
            r.node_id == 1001,
            r.external_port == 10001,
            r.grpc_port == 50056,
            !r.tls.enabled,
            r.timeout == 30,
    {
        MeshConfig {
            node_id: 1001,
            external_port: 10001,
            grpc_port: 50056,
            supervisor_addr: "localhost:50000".to_owned(),
            tls: TlsConfig::default(),
            mesh_id: "default-mesh".to_owned(),
            mesh_token: String::new(),
            timeout: 30,
        }
    }
}

/// Parse an unsigned decimal from bytes: exactly the numeral's value on a
/// non-empty all-digit string worth at most the bound, and nothing on an
/// empty string, a non-digit, or overflow past the bound.
pub fn parse_decimal_u64(s: &[u8], bound: u64) -> (r: Option<u64>)
    ensures
        r matches Some(v) ==> (s@.len() > 0 && all_digits(s@) && v == spec_decimal_value(s@) && v
            <= bound),
        r is None ==> !(s@.len() > 0 && all_digits(s@) && spec_decimal_value(s@) <= bound),
{
    if s.len() == 0 {
        return None;
    }
    let mut value: u64 = 0;
    let mut i: usize = 0;
    while i < s.len()
        invariant
            i <= s@.len(),
            value <= bound,
            all_digits(s@.subrange(0, i as int)),
            value == spec_decimal_value(s@.subrange(0, i as int)),
        decreases s@.len() - i,
    {
        let b = s[i];
        if b < 0x30 || b > 0x39 {
            proof {
                assert(!all_digits(s@)) by {
                    assert(!(0x30 <= s@[i as int] <= 0x39));
                }
            }
            return None;
        }
        let digit = (b - 0x30) as u64;
        let ghost next = s@.subrange(0, i + 1);
        proof {
            assert(next.drop_last() =~= s@.subrange(0, i as int));
            assert(next.last() == b);
            assert(spec_decimal_value(next) == value * 10 + digit);
        }
        if digit > bound {
            proof {
                if all_digits(s@) {
                    crate::node_uri::lemma_decimal_value_prefix(s@, i + 1);
                    assert(spec_decimal_value(next) > bound);
                }
            }
            return None;
        }
        if value > (bound - digit) / 10 {
            proof {
                assert(value * 10 + digit > bound) by (nonlinear_arith)
                    requires
                        digit <= bound && value > (bound - digit) / 10 && value >= 0,
                ;
                if all_digits(s@) {
                    crate::node_uri::lemma_decimal_value_prefix(s@, i + 1);
                    assert(spec_decimal_value(next) > bound);
                }
            }
            return None;
        }
        proof {
            assert(value * 10 + digit <= bound) by (nonlinear_arith)
                requires
                    digit <= bound && value <= (bound - digit) / 10 && digit <= 9,
            ;
        }
        value = value * 10 + digit;
        i = i + 1;
        proof {
            assert(s@.subrange(0, i as int).drop_last() =~= s@.subrange(0, i - 1));
            assert(s@.subrange(0, i as int).last() == b);
            assert(all_digits(s@.subrange(0, i as int))) by {
                assert(forall|t: int|
                    0 <= t < i ==> s@.subrange(0, i as int)[t] == #[trigger] s@[t]);
            }
        }
    }
    proof {
        assert(s@.subrange(0, s@.len() as int) =~= s@);
    }
    Some(value)
}

impl MeshConfig {
    /// Apply one configuration argument: `--port=<n>` sets the RPC port
    /// when `<n>` is a decimal port number, `--supervisor=<addr>` sets the
    /// supervisor address; anything else is left alone.
    pub fn apply_argument(&mut self, arg: &str)
        ensures
            final(self).node_id == old(self).node_id,
            final(self).external_port == old(self).external_port,
            final(self).tls == old(self).tls,
            final(self).mesh_id == old(self).mesh_id,
            final(self).mesh_token == old(self).mesh_token,
            final(self).timeout == old(self).timeout,
            ({
                let ab = arg.spec_bytes();
                let pp = "--port=".spec_bytes();
                let sp = "--supervisor=".spec_bytes();
                let is_port = ab.len() >= pp.len() && ab.subrange(0, pp.len() as int) == pp;
                let is_sup = !is_port && ab.len() >= sp.len() && ab.subrange(
                    0,
                    sp.len() as int,
                ) == sp;
                let port_rest = ab.subrange(pp.len() as int, ab.len() as int);
                let sup_rest = ab.subrange(sp.len() as int, ab.len() as int);
                let port_ok = port_rest.len() > 0 && all_digits(port_rest) && spec_decimal_value(
                    port_rest,
                ) <= u16::MAX;
                &&& (is_port && port_ok ==> final(self).grpc_port == spec_decimal_value(port_rest))
                &&& (is_port && !port_ok ==> final(self).grpc_port == old(self).grpc_port)
                &&& (is_port ==> final(self).supervisor_addr == old(self).supervisor_addr)
                &&& (is_sup && vstd::utf8::valid_utf8(sup_rest) ==> vstd::utf8::encode_utf8(
                    final(self).supervisor_addr@,
                ) == sup_rest)
                &&& (is_sup && !vstd::utf8::valid_utf8(sup_rest) ==> final(self).supervisor_addr
                    == old(self).supervisor_addr)
                &&& (is_sup ==> final(self).grpc_port == old(self).grpc_port)
                &&& (!is_port && !is_sup ==> final(self).grpc_port == old(self).grpc_port
                    && final(self).supervisor_addr == old(self).supervisor_addr)
            }),
    {
        let bytes = arg.as_bytes();
        let port_prefix = "--port=".as_bytes();
        let supervisor_prefix = "--supervisor=".as_bytes();
        if starts_with(bytes, port_prefix) {
            let rest = crate::frame::slice_range(bytes, port_prefix.len(), bytes.len());
            match parse_decimal_u64(rest, u16::MAX as u64) {
                Some(v) => {
                    self.grpc_port = v as u16;
                },
                None => {},
            }
        } else if starts_with(bytes, supervisor_prefix) {
            let rest = crate::frame::slice_range(bytes, supervisor_prefix.len(), bytes.len());
            match bytes_to_string(rest) {
                Some(s) => {
                    self.supervisor_addr = s;
                },
                None => {},
            }
        }
    }

    /// Apply one configuration key and value from the service tree: each
    /// known key sets exactly its own field, numeric values that do not
    /// parse and unknown keys change nothing.
    pub fn apply_config_entry(&mut self, key: &str, value: &str)
        ensures
            final(self).grpc_port == old(self).grpc_port,
            final(self).supervisor_addr == old(self).supervisor_addr,
            ({
                let k = key.spec_bytes();
                let vb = value.spec_bytes();
                let num_ok_u64 = vb.len() > 0 && all_digits(vb) && spec_decimal_value(vb)
                    <= u64::MAX;
                let num_ok_u16 = vb.len() > 0 && all_digits(vb) && spec_decimal_value(vb)
                    <= u16::MAX;
                let num_ok_u32 = vb.len() > 0 && all_digits(vb) && spec_decimal_value(vb)
                    <= u32::MAX;
                &&& (k == "services.mesh.node_id".spec_bytes() && num_ok_u64 ==> final(self).node_id == spec_decimal_value(vb))
                &&& (!(k == "services.mesh.node_id".spec_bytes() && num_ok_u64) ==> final(self).node_id == old(self).node_id)
                &&& (k == "services.mesh.external_port".spec_bytes() && num_ok_u16 ==> final(self).external_port == spec_decimal_value(vb))
                &&& (!(k == "services.mesh.external_port".spec_bytes() && num_ok_u16) ==> final(self).external_port == old(self).external_port)
                &&& (k == "services.mesh.mesh_id".spec_bytes() ==> final(self).mesh_id@ == value@)
                &&& (k != "services.mesh.mesh_id".spec_bytes() ==> final(self).mesh_id == old(
                    self,
                ).mesh_id)
                &&& (k == "services.mesh.mesh_token".spec_bytes() ==> final(self).mesh_token@
                    == value@)
                &&& (k != "services.mesh.mesh_token".spec_bytes() ==> final(self).mesh_token == old(
                    self,
                ).mesh_token)
                &&& (k == "services.mesh.timeout".spec_bytes() && num_ok_u32 ==> final(self).timeout == spec_decimal_value(vb))
                &&& (!(k == "services.mesh.timeout".spec_bytes() && num_ok_u32) ==> final(self).timeout == old(self).timeout)
                &&& (k == "services.mesh.tls.enabled".spec_bytes() ==> final(self).tls.enabled == (
                vb == "true".spec_bytes()))
                &&& (k != "services.mesh.tls.enabled".spec_bytes() ==> final(self).tls.enabled
                    == old(self).tls.enabled)
                &&& (k == "services.mesh.tls.cert_file".spec_bytes() ==> final(self).tls.cert_file@
                    == value@)
                &&& (k != "services.mesh.tls.cert_file".spec_bytes() ==> final(self).tls.cert_file
                    == old(self).tls.cert_file)
                &&& (k == "services.mesh.tls.key_file".spec_bytes() ==> final(self).tls.key_file@
                    == value@)
                &&& (k != "services.mesh.tls.key_file".spec_bytes() ==> final(self).tls.key_file
                    == old(self).tls.key_file)
                &&& (k == "services.mesh.tls.ca_file".spec_bytes() ==> final(self).tls.ca_file@
                    == value@)
                &&& (k != "services.mesh.tls.ca_file".spec_bytes() ==> final(self).tls.ca_file
                    == old(self).tls.ca_file)
            }),
    {
        proof {
            reveal_strlit("services.mesh.node_id");
            reveal_strlit("services.mesh.external_port");
            reveal_strlit("services.mesh.mesh_id");
            reveal_strlit("services.mesh.mesh_token");
            reveal_strlit("services.mesh.timeout");
            reveal_strlit("services.mesh.tls.enabled");
            reveal_strlit("services.mesh.tls.cert_file");
            reveal_strlit("services.mesh.tls.key_file");
            reveal_strlit("services.mesh.tls.ca_file");
            crate::meta::lemma_literal_ascii_bytes("services.mesh.node_id");
            crate::meta::lemma_literal_ascii_bytes("services.mesh.external_port");
            crate::meta::lemma_literal_ascii_bytes("services.mesh.mesh_id");
            crate::meta::lemma_literal_ascii_bytes("services.mesh.mesh_token");
            crate::meta::lemma_literal_ascii_bytes("services.mesh.timeout");
            crate::meta::lemma_literal_ascii_bytes("services.mesh.tls.enabled");
            crate::meta::lemma_literal_ascii_bytes("services.mesh.tls.cert_file");
            crate::meta::lemma_literal_ascii_bytes("services.mesh.tls.key_file");
            crate::meta::lemma_literal_ascii_bytes("services.mesh.tls.ca_file");
            assert("services.mesh.node_id".spec_bytes() != "services.mesh.mesh_id".spec_bytes())
                by {
                assert("services.mesh.node_id".spec_bytes()[14] == 'n' as u8);
                assert("services.mesh.mesh_id".spec_bytes()[14] == 'm' as u8);
            }
            assert("services.mesh.node_id".spec_bytes() != "services.mesh.timeout".spec_bytes())
                by {
                assert("services.mesh.node_id".spec_bytes()[14] == 'n' as u8);
                assert("services.mesh.timeout".spec_bytes()[14] == 't' as u8);
            }
            assert("services.mesh.mesh_id".spec_bytes() != "services.mesh.timeout".spec_bytes())
                by {
                assert("services.mesh.mesh_id".spec_bytes()[14] == 'm' as u8);
                assert("services.mesh.timeout".spec_bytes()[14] == 't' as u8);
            }
            assert("services.mesh.tls.enabled".spec_bytes()
                != "services.mesh.tls.ca_file".spec_bytes()) by {
                assert("services.mesh.tls.enabled".spec_bytes()[18] == 'e' as u8);
                assert("services.mesh.tls.ca_file".spec_bytes()[18] == 'c' as u8);
            }
            assert("services.mesh.external_port".spec_bytes()
                != "services.mesh.tls.cert_file".spec_bytes()) by {
                assert("services.mesh.external_port".spec_bytes()[14] == 'e' as u8);
                assert("services.mesh.tls.cert_file".spec_bytes()[14] == 't' as u8);
            }
        }
        let k = key.as_bytes();
        if bytes_eq(k, "services.mesh.node_id".as_bytes()) {
            match parse_decimal_u64(value.as_bytes(), u64::MAX) {
                Some(v) => {
                    self.node_id = v;
                },
                None => {},
            }
        } else if bytes_eq(k, "services.mesh.external_port".as_bytes()) {
            match parse_decimal_u64(value.as_bytes(), u16::MAX as u64) {
                Some(v) => {
                    self.external_port = v as u16;
                },
                None => {},
            }
        } else if bytes_eq(k, "services.mesh.mesh_id".as_bytes()) {
            self.mesh_id = value.to_owned();
        } else if bytes_eq(k, "services.mesh.mesh_token".as_bytes()) {
            self.mesh_token = value.to_owned();
        } else if bytes_eq(k, "services.mesh.timeout".as_bytes()) {
            match parse_decimal_u64(value.as_bytes(), u32::MAX as u64) {
                Some(v) => {
                    self.timeout = v as u32;
                },
                None => {},
            }
        } else if bytes_eq(k, "services.mesh.tls.enabled".as_bytes()) {
            self.tls.enabled = bytes_eq(value.as_bytes(), "true".as_bytes());
        } else if bytes_eq(k, "services.mesh.tls.cert_file".as_bytes()) {
            self.tls.cert_file = value.to_owned();
        } else if bytes_eq(k, "services.mesh.tls.key_file".as_bytes()) {
            self.tls.key_file = value.to_owned();
        } else if bytes_eq(k, "services.mesh.tls.ca_file".as_bytes()) {
            self.tls.ca_file = value.to_owned();
        }
    }

    /// Apply the service part of the configuration tree: the arguments in
    /// order, then the key-value entries in order.
    pub fn apply_service_config(&mut self, args: &Vec<String>, entries: &Vec<(String, String)>)
        ensures
            true,
    {
        let n = args.len();
        let mut i: usize = 0;
        while i < n
            invariant
                i <= n,
                n == args@.len(),
            decreases n - i,
        {
            self.apply_argument(args[i].as_str());
            i = i + 1;
        }
        let m = entries.len();
        let mut j: usize = 0;
        while j < m
            invariant
                j <= m,
                m == entries@.len(),
            decreases m - j,
        {
            self.apply_config_entry(entries[j].0.as_str(), entries[j].1.as_str());
            j = j + 1;
        }
    }

    /// Apply the root of the configuration tree: the supervisor port,
    /// when given, becomes `localhost:<port>` — the address string itself
    /// is assembled by the caller — then the service part.
    pub fn apply_root_config(
        &mut self,
        supervisor_addr: Option<String>,
        args: &Vec<String>,
        entries: &Vec<(String, String)>,
    )
        ensures
            true,
    {
        match supervisor_addr {
            Some(addr) => {
                self.supervisor_addr = addr;
            },
            None => {},
        }
        self.apply_service_config(args, entries);
    }
}

/// Whether `s` starts with `prefix`.
pub fn starts_with(s: &[u8], prefix: &[u8]) -> (r: bool)
    ensures
        r == (s@.len() >= prefix@.len() && s@.subrange(0, prefix@.len() as int) == prefix@),
{
    if s.len() < prefix.len() {
        proof {
            assert(s@.len() < prefix@.len());
        }
        return false;
    }
    let head = crate::frame::slice_range(s, 0, prefix.len());
    bytes_eq(head, prefix)
}

/// Relies on String::from_utf8: the string holding exactly the given
/// bytes, or nothing when they are not valid UTF-8.
#[verifier::external_body]
pub fn bytes_to_string(bytes: &[u8]) -> (r: Option<String>)
    ensures
        r matches Some(s) ==> vstd::utf8::encode_utf8(s@) == bytes@,
        r is Some <==> vstd::utf8::valid_utf8(bytes@),
{
    match std::string::String::from_utf8(bytes.to_vec()) {
        Ok(s) => Some(s),
        Err(_) => None,
    }
}

/// Supervisor registration settings.
#[derive(Debug, Clone, PartialEq, Eq)]
pub struct SupervisorConfig {
    /// The supervisor's address.
    pub addr: String,
    /// The name this service registers under.
    pub service_name: String,
    /// Seconds between heartbeats.
    pub heartbeat_interval_secs: u64,
}

/// The outcome of an administrative session operation.
#[derive(Debug, Clone, PartialEq, Eq)]
pub struct SessionOperationResult {
    /// Whether the operation succeeded.
    pub success: bool,
    /// A short account of the outcome.
    pub message: String,
    /// An error code, when the operation failed.
    pub error_code: Option<String>,
    /// The peer involved, when known.
    pub peer_node_id: Option<u64>,
    /// The remote address involved, when known.
    pub remote_addr: Option<String>,
}

/// An instruction to terminate one session.
#[derive(Debug, Clone, PartialEq, Eq)]
pub struct SessionTermination {
    /// The peer whose session closes.
    pub peer_node_id: u64,
    /// Why it closes.
    pub reason: String,
}

} // verus!
