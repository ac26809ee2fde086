//! Names and the configuration file of the backend.

use vstd::prelude::*;

use crate::numbers::decimal;
#[allow(unused_imports)]
use crate::numbers::decimal_text;
use crate::text::join3;
#[allow(unused_imports)]
use crate::text::opt_view;
use crate::types::BackendStatus;

verus! {

/// The directory of the backend inside the application's data.
pub const BACKEND_DIR_NAME: &'static str = "cli-proxy-api";

/// The backend's executable.
pub const BACKEND_BINARY_NAME: &'static str = "cli-proxy-api-plus";

/// The backend's executable on Windows.
pub const BACKEND_BINARY_NAME_WINDOWS: &'static str = "cli-proxy-api-plus.exe";

/// The directory of the account files in the user's home.
pub const AUTH_DIR_NAME: &'static str = ".cli-proxy-api";

/// The key of the backend's management endpoints, which only answer locally.
pub const MANAGEMENT_KEY: &'static str = "jean-local-management-key";

/// The header that carries the management key.
pub const MANAGEMENT_HEADER: &'static str = "x-management-key";

/// The backend's configuration.
pub open spec fn config_yaml(port: u16, auth_dir: Seq<char>, strategy: Seq<char>) -> Seq<char> {
    "host: '127.0.0.1'\nport: "@ + decimal_text(port as nat) + "\nauth-dir: '"@ + auth_dir
        + "'\nrouting:\n  strategy: '"@ + strategy + "'\nremote-management:\n  secret-key: '"@
        + MANAGEMENT_KEY@ + "'\n"@
}

/// The backend's configuration: its port, the directory of the account files
/// and the rotation strategy.
pub fn format_config_yaml(port: u16, auth_dir: &str, strategy: &str) -> (r: String)
    ensures
        r@ == config_yaml(port, auth_dir@, strategy@),
{
    let digits = decimal(port as u64);
    let head = join3("host: '127.0.0.1'\nport: ", digits.as_str(), "\nauth-dir: '");
    let routing = join3(head.as_str(), auth_dir, "'\nrouting:\n  strategy: '");
    let management = join3(
        routing.as_str(),
        strategy,
        "'\nremote-management:\n  secret-key: '",
    );
    join3(management.as_str(), MANAGEMENT_KEY, "'\n")
}

/// The name of the backend's executable.
pub fn backend_binary_name(windows: bool) -> (r: &'static str)
    ensures
        r@ == if windows {
            BACKEND_BINARY_NAME_WINDOWS@
        } else {
            BACKEND_BINARY_NAME@
        },
{
    if windows {
        BACKEND_BINARY_NAME_WINDOWS
    } else {
        BACKEND_BINARY_NAME
    }
}

/// Whether the backend is installed, and where.
pub fn backend_status(path: String, present: bool) -> (r: BackendStatus)
    ensures
        r.installed == present,
        opt_view(r.path) == if present {
            Some(path@)
        } else {
            None
        },
{
    BackendStatus {
        installed: present,
        path: if present {
            Some(path)
        } else {
            None
        },
    }
}

/// Configurations for two ports differ.
pub proof fn config_depends_on_the_port(a: u16, b: u16, auth_dir: Seq<char>, strategy: Seq<char>)
    requires
        config_yaml(a, auth_dir, strategy) == config_yaml(b, auth_dir, strategy),
    ensures
        a == b,
{
    let head = "host: '127.0.0.1'\nport: "@;
    let x = decimal_text(a as nat);
    let y = decimal_text(b as nat);
    let tail = "\nauth-dir: '"@ + auth_dir + "'\nrouting:\n  strategy: '"@ + strategy
        + "'\nremote-management:\n  secret-key: '"@ + MANAGEMENT_KEY@ + "'\n"@;
    assert(config_yaml(a, auth_dir, strategy) =~= head + x + tail);
    assert(config_yaml(b, auth_dir, strategy) =~= head + y + tail);
    assert(x.len() == y.len());
    assert forall|i: int| 0 <= i < x.len() implies x[i] == y[i] by {
        assert((head + x + tail)[head.len() + i] == x[i]);
        assert((head + y + tail)[head.len() + i] == y[i]);
    }
    assert(x =~= y);
    crate::numbers::decimal_round_trip(a as u64);
    crate::numbers::decimal_round_trip(b as u64);
}

/// The configuration sets five things on lines of their own: the local host, the
/// port, the directory of the accounts, the strategy and the management key.
pub proof fn the_configuration_holds_its_settings(
    port: u16,
    auth_dir: Seq<char>,
    strategy: Seq<char>,
)
    ensures
        ({
            let c = config_yaml(port, auth_dir, strategy);
            let number = decimal_text(port as nat);
            let after_port = "host: '127.0.0.1'\nport: "@ + number + "\nauth-dir: '"@;
            let after_dir = after_port + auth_dir + "'\nrouting:\n  strategy: '"@;
            &&& c == after_dir + strategy + "'\nremote-management:\n  secret-key: '"@
                + "jean-local-management-key"@ + "'\n"@
        }),
        MANAGEMENT_KEY@ == "jean-local-management-key"@,
        MANAGEMENT_HEADER@ == "x-management-key"@,
        BACKEND_DIR_NAME@ == "cli-proxy-api"@,
        BACKEND_BINARY_NAME@ == "cli-proxy-api-plus"@,
        BACKEND_BINARY_NAME_WINDOWS@ == "cli-proxy-api-plus.exe"@,
        AUTH_DIR_NAME@ == ".cli-proxy-api"@,
{
}

/// Two configurations of the same port and directory differ where their
/// strategies do, and those of the same port and strategy where their
/// directories do.
pub proof fn configurations_tell_their_settings_apart(
    port: u16,
    dir_a: Seq<char>,
    dir_b: Seq<char>,
    a: Seq<char>,
    b: Seq<char>,
)
    ensures
        config_yaml(port, dir_a, a) == config_yaml(port, dir_a, b) ==> a == b,
        config_yaml(port, dir_a, a) == config_yaml(port, dir_b, a) ==> dir_a == dir_b,
{
    let head = "host: '127.0.0.1'\nport: "@ + decimal_text(port as nat) + "\nauth-dir: '"@;
    let mid = "'\nrouting:\n  strategy: '"@;
    let end = "'\nremote-management:\n  secret-key: '"@ + MANAGEMENT_KEY@ + "'\n"@;
    assert(config_yaml(port, dir_a, a) =~= (head + dir_a + mid) + a + end);
    assert(config_yaml(port, dir_a, b) =~= (head + dir_a + mid) + b + end);
    lemma_middle(head + dir_a + mid, a, b, end);
    assert(config_yaml(port, dir_a, a) =~= head + dir_a + (mid + a + end));
    assert(config_yaml(port, dir_b, a) =~= head + dir_b + (mid + a + end));
    lemma_middle(head, dir_a, dir_b, mid + a + end);
}

proof fn lemma_middle(head: Seq<char>, a: Seq<char>, b: Seq<char>, tail: Seq<char>)
    ensures
        head + a + tail == head + b + tail ==> a == b,
{
    if head + a + tail == head + b + tail {
        let x = head + a + tail;
        let y = head + b + tail;
        assert(x.len() == y.len());
        assert(a =~= x.subrange(head.len() as int, (head.len() + a.len()) as int));
        assert(b =~= y.subrange(head.len() as int, (head.len() + b.len()) as int));
    }
}

} // verus!
