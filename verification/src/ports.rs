//! The local ports that are asked one after the other, and their replies.

use vstd::prelude::*;

use crate::json::Json;
use crate::proxy_server::backend_url;
#[allow(unused_imports)]
use crate::proxy_server::local_url;
use crate::text::{join2, join3};
#[allow(unused_imports)]
use crate::text::opt_view;
use crate::types::ProxyStatus;

verus! {

/// The ports in rising order, each once.
pub open spec fn rising(ports: Seq<u16>) -> bool {
    forall|i: int, j: int| 0 <= i < j < ports.len() ==> ports[i] < ports[j]
}

/// `out` holds the ports of `all` in rising order, each once.
pub open spec fn distinct_ports(out: Seq<u16>, all: Seq<u16>) -> bool {
    &&& rising(out)
    &&& forall|p: u16| out.contains(p) <==> all.contains(p)
}

/// The optional port, as a row.
pub open spec fn port_row(port: Option<u16>) -> Seq<u16> {
    match port {
        Some(p) => seq![p],
        None => Seq::empty(),
    }
}

proof fn lemma_either_row(a: Seq<u16>, b: Seq<u16>, p: u16)
    ensures
        (a + b).contains(p) <==> a.contains(p) || b.contains(p),
{
    if a.contains(p) {
        let i = choose|i: int| 0 <= i < a.len() && a[i] == p;
        assert((a + b)[i] == p);
    }
    if b.contains(p) {
        let i = choose|i: int| 0 <= i < b.len() && b[i] == p;
        assert((a + b)[a.len() + i] == p);
    }
    if (a + b).contains(p) {
        let i = choose|i: int| 0 <= i < (a + b).len() && (a + b)[i] == p;
        if i < a.len() {
            assert(a[i] == p);
        } else {
            assert(b[i - a.len()] == p);
        }
    }
}

proof fn lemma_two_rows(a: Option<u16>, b: Option<u16>, p: u16)
    ensures
        (port_row(a) + port_row(b)).contains(p) <==> a == Some(p) || b == Some(p),
{
    lemma_either_row(port_row(a), port_row(b), p);
    if a == Some(p) {
        assert(port_row(a)[0] == p);
    }
    if b == Some(p) {
        assert(port_row(b)[0] == p);
    }
}

/// Adds a port where it is missing.
fn add_port(ports: &mut Vec<u16>, port: u16, Ghost(all): Ghost<Seq<u16>>)
    requires
        distinct_ports(old(ports)@, all),
    ensures
        distinct_ports(final(ports)@, all.push(port)),
{
    let ghost before = ports@;
    let mut i: usize = 0;
    while i < ports.len() && ports[i] < port
        invariant
            i <= ports@.len(),
            ports@ == before,
            forall|j: int| 0 <= j < i ==> ports@[j] < port,
        decreases ports@.len() - i,
    {
        i = i + 1;
    }
    let there = i < ports.len() && ports[i] == port;
    if !there {
        ports.insert(i, port);
    }
    proof {
        assert forall|p: u16| ports@.contains(p) <==> all.push(port).contains(p) by {
            if ports@.contains(p) && p != port {
                let j = choose|j: int| 0 <= j < ports@.len() && ports@[j] == p;
                if there || j < i {
                    assert(before[j] == p);
                } else {
                    assert(before[j - 1] == p);
                }
                assert(all.contains(p));
                let k = choose|k: int| 0 <= k < all.len() && all[k] == p;
                assert(all.push(port)[k] == p);
            }
            if p == port {
                assert(ports@[i as int] == p);
                assert(all.push(port)[all.len() as int] == p);
            }
            if all.push(port).contains(p) && p != port {
                let k = choose|k: int| 0 <= k < all.push(port).len() && all.push(port)[k] == p;
                assert(all[k] == p);
                assert(before.contains(p));
                let j = choose|j: int| 0 <= j < before.len() && before[j] == p;
                if there || j < i {
                    assert(ports@[j] == p);
                } else {
                    assert(ports@[j + 1] == p);
                }
            }
        }
        if !there {
            assert forall|a: int, b: int| 0 <= a < b < ports@.len() implies ports@[a]
                < ports@[b] by {
                if b < i {
                    assert(before[a] < before[b]);
                } else if a > i {
                    assert(before[a - 1] < before[b - 1]);
                } else if a < i && b > i {
                    assert(before[a] < before[b - 1]);
                } else if a == i {
                    assert(before[i as int] >= port);
                    if b - 1 > i {
                        assert(before[i as int] < before[b - 1]);
                    }
                }
            }
        }
    }
}

/// Adds an optional port where it is missing.
fn add_optional_port(ports: &mut Vec<u16>, port: Option<u16>, Ghost(all): Ghost<Seq<u16>>)
    requires
        distinct_ports(old(ports)@, all),
    ensures
        distinct_ports(final(ports)@, all + port_row(port)),
{
    match port {
        Some(p) => {
            assert(all + port_row(port) =~= all.push(p));
            add_port(ports, p, Ghost(all));
        },
        None => {
            assert(all + port_row(port) =~= all);
        },
    }
}

/// The ports on which the backend may be found: the running one and the
/// configured one.
pub fn collect_backend_ports(status: &ProxyStatus, configured: Option<u16>) -> (r: Vec<u16>)
    ensures
        distinct_ports(r@, port_row(status.backend_port) + port_row(configured)),
        forall|p: u16|
            r@.contains(p) <==> status.backend_port == Some(p) || configured == Some(p),
        forall|i: int, j: int| 0 <= i < j < r@.len() ==> r@[i] < r@[j],
{
    let mut ports: Vec<u16> = Vec::new();
    let ghost none = Seq::<u16>::empty();
    add_optional_port(&mut ports, status.backend_port, Ghost(none));
    let ghost one = none + port_row(status.backend_port);
    assert(one =~= port_row(status.backend_port));
    add_optional_port(&mut ports, configured, Ghost(one));
    proof {
        let all = port_row(status.backend_port) + port_row(configured);
        assert forall|p: u16|
            ports@.contains(p) <==> status.backend_port == Some(p) || configured == Some(p) by {
            lemma_two_rows(status.backend_port, configured, p);
            assert(ports@.contains(p) <==> all.contains(p));
        }
    }
    ports
}

/// The ports on which models may be listed: the running proxy's and backend's,
/// and the configured ones.
pub fn collect_model_ports(status: &ProxyStatus, configured: Option<(u16, u16)>) -> (r: Vec<u16>)
    ensures
        distinct_ports(
            r@,
            port_row(status.proxy_port) + port_row(status.backend_port) + match configured {
                Some((proxy, backend)) => seq![proxy, backend],
                None => Seq::empty(),
            },
        ),
        forall|p: u16|
            r@.contains(p) <==> status.proxy_port == Some(p) || status.backend_port == Some(p) || (
            configured matches Some((proxy, backend)) && (proxy == p || backend == p)),
        forall|i: int, j: int| 0 <= i < j < r@.len() ==> r@[i] < r@[j],
{
    let mut ports: Vec<u16> = Vec::new();
    let ghost none = Seq::<u16>::empty();
    add_optional_port(&mut ports, status.proxy_port, Ghost(none));
    let ghost one = none + port_row(status.proxy_port);
    assert(one =~= port_row(status.proxy_port));
    add_optional_port(&mut ports, status.backend_port, Ghost(one));
    let ghost two = one + port_row(status.backend_port);
    match configured {
        Some((proxy, backend)) => {
            add_port(&mut ports, proxy, Ghost(two));
            add_port(&mut ports, backend, Ghost(two.push(proxy)));
            assert(two.push(proxy).push(backend) =~= two + seq![proxy, backend]);
        },
        None => {
            assert(two + Seq::<u16>::empty() =~= two);
        },
    }
    proof {
        let more = match configured {
            Some((proxy, backend)) => seq![proxy, backend],
            None => Seq::empty(),
        };
        assert forall|p: u16|
            ports@.contains(p) <==> status.proxy_port == Some(p) || status.backend_port == Some(p)
                || (configured matches Some((proxy, backend)) && (proxy == p || backend == p)) by {
            lemma_two_rows(status.proxy_port, status.backend_port, p);
            lemma_either_row(two, more, p);
            match configured {
                Some((proxy, backend)) => {
                    assert(more[0] == proxy && more[1] == backend);
                },
                None => {},
            }
            assert(ports@.contains(p) <==> (two + more).contains(p));
        }
    }
    ports
}

// ---------------------------------------------------------------------------
// One port after the other
// ---------------------------------------------------------------------------

/// The ports still to be asked, and the last error.
#[derive(Debug)]
pub struct PortScan {
    ports: Vec<u16>,
    at: usize,
    last_error: Option<String>,
}

/// The mathematical content of a scan.
pub struct Scan {
    pub left: Seq<u16>,
    pub error: Option<Seq<char>>,
}

impl View for PortScan {
    type V = Scan;

    closed spec fn view(&self) -> Scan {
        Scan { left: self.ports@.skip(self.at as int), error: opt_view(self.last_error) }
    }
}

impl PortScan {
    #[verifier::type_invariant]
    spec fn within(self) -> bool {
        self.at <= self.ports@.len()
    }

    /// A scan of these ports.
    pub fn new(ports: Vec<u16>) -> (r: Self)
        ensures
            r@ == (Scan { left: ports@, error: None }),
    {
        let r = PortScan { ports, at: 0, last_error: None };
        assert(ports@.skip(0) =~= ports@);
        r
    }

    /// The next port to ask.
    pub fn next_port(&mut self) -> (r: Option<u16>)
        ensures
            final(self)@.error == old(self)@.error,
            if old(self)@.left.len() > 0 {
                r == Some(old(self)@.left[0]) && final(self)@.left == old(self)@.left.drop_first()
            } else {
                r is None && final(self)@.left == old(self)@.left
            },
    {
        proof {
            use_type_invariant(&*self);
        }
        if self.at < self.ports.len() {
            let port: u16 = self.ports[self.at];
            let ghost before = self@.left;
            self.at = self.at + 1;
            assert(self@.left =~= before.drop_first());
            Some(port)
        } else {
            None
        }
    }

    /// The port last asked gave no answer.
    pub fn failed(&mut self, error: String)
        ensures
            final(self)@.left == old(self)@.left,
            final(self)@.error == Some(error@),
    {
        proof {
            use_type_invariant(&*self);
        }
        self.last_error = Some(error);
    }

    /// `message`, followed by the last error in brackets.
    pub fn give_up(&self, message: &str) -> (r: String)
        ensures
            r@ == match self@.error {
                Some(e) => message@ + (" ("@ + e + ")"@),
                None => message@,
            },
    {
        match &self.last_error {
            Some(e) => {
                let detail = join3(" (", e.as_str(), ")");
                join2(message, detail.as_str())
            },
            None => message.to_owned(),
        }
    }
}

// ---------------------------------------------------------------------------
// Replies
// ---------------------------------------------------------------------------

/// A reply to a request for JSON.
#[derive(Debug)]
pub enum Reply {
    /// The request failed; the error's text.
    Unsent(String),
    /// The status was no success; the status as text.
    Refused(String),
    /// The body was no JSON; the error's text.
    Garbled(String),
    /// The document.
    Document(Json),
}

/// The document in a reply, or what was wrong with it, under the address that
/// was asked.
pub fn read_reply(url: &str, reply: Reply) -> (r: Result<Json, String>)
    ensures
        match reply {
            Reply::Unsent(e) => r matches Err(text) && text@ == url@ + ": "@ + e@,
            Reply::Refused(s) => r matches Err(text) && text@ == url@ + ": HTTP "@ + s@,
            Reply::Garbled(e) => r matches Err(text) && text@ == url@ + ": invalid JSON ("@ + e@
                + ")"@,
            Reply::Document(v) => r == Ok::<Json, String>(v),
        },
{
    match reply {
        Reply::Unsent(e) => Err(join3(url, ": ", e.as_str())),
        Reply::Refused(s) => Err(join3(url, ": HTTP ", s.as_str())),
        Reply::Garbled(e) => {
            let text = join3(url, ": invalid JSON (", e.as_str());
            Err(join2(text.as_str(), ")"))
        },
        Reply::Document(v) => Ok(v),
    }
}

/// The address of the models on a local port.
pub fn models_url(port: u16) -> (r: String)
    ensures
        r@ == local_url(port, "/v1/models"@),
{
    backend_url(port, "/v1/models")
}

/// The address of the backend's account files.
pub fn auth_files_url(port: u16) -> (r: String)
    ensures
        r@ == local_url(port, "/v0/management"@) + "/auth-files"@,
{
    let base = backend_url(port, "/v0/management");
    join2(base.as_str(), "/auth-files")
}

/// The address of the backend's usage report.
pub fn usage_url(port: u16) -> (r: String)
    ensures
        r@ == local_url(port, "/v0/management"@) + "/usage"@,
{
    let base = backend_url(port, "/v0/management");
    join2(base.as_str(), "/usage")
}

/// The error of a usage report without usage.
pub fn missing_usage(url: &str) -> (r: String)
    ensures
        r@ == url@ + ": missing usage payload"@,
{
    join2(url, ": missing usage payload")
}

} // verus!
