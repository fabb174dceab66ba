//! The configuration of a daemon.
//!
//! ```toml
//! [identity]
//! key_file = "~/.rsticulum/identity.key"
//!
//! [[interfaces]]
//! type = "udp"
//! bind = "0.0.0.0:4242"
//!
//! [icn]
//! cs_max_entries = 10000
//!
//! [api]
//! bind = "127.0.0.1:37428"
//! ```

use crate::text;
use vstd::prelude::*;

verus! {

/// The configuration of a daemon.
#[derive(Debug, Clone, PartialEq, Eq)]
pub struct Config {
    pub identity: IdentityConfig,
    pub interfaces: Vec<InterfaceConfig>,
    pub icn: IcnConfig,
    /// The local API socket, where there is one.
    pub api: Option<ApiConfig>,
}

/// Where the identity is kept.
#[derive(Debug, Clone, PartialEq, Eq)]
pub struct IdentityConfig {
    /// Path of the key file. Where there is none, keys are generated.
    pub key_file: String,
}

/// A network interface.
#[derive(Debug, Clone, PartialEq, Eq)]
pub struct InterfaceConfig {
    /// `udp`, `tcp` or `serial`.
    pub iface_type: String,
    /// The address to bind to.
    pub bind: String,
    /// The name for display.
    pub name: String,
}

/// The content forwarder.
#[derive(Debug, Clone, Copy, PartialEq, Eq, Structural)]
pub struct IcnConfig {
    /// Most entries in the content store.
    pub cs_max_entries: usize,
}

/// The local API socket.
#[derive(Debug, Clone, PartialEq, Eq)]
pub struct ApiConfig {
    /// The address to bind to.
    pub bind: String,
}

/// Why a configuration cannot be loaded or saved.
#[derive(Debug, Clone, PartialEq, Eq)]
pub enum ConfigError {
    Io(String),
    Parse(String),
}

impl ConfigError {
    /// The text of the error.
    pub open spec fn message(&self) -> Seq<char> {
        match *self {
            ConfigError::Io(m) => "IO error: "@ + m@,
            ConfigError::Parse(m) => "Parse error: "@ + m@,
        }
    }

    /// The message that describes the error.
    pub fn to_string(&self) -> (out: String)
        ensures
            out@ == self.message(),
    {
        match self {
            ConfigError::Io(m) => text::join("IO error: ", m.as_str()),
            ConfigError::Parse(m) => text::join("Parse error: ", m.as_str()),
        }
    }
}

/// A directory as it stands in front of a name: with a slash, unless it is empty or ends
/// in one.
pub open spec fn directory(path: Seq<char>) -> Seq<char> {
    if path.len() == 0 || path.last() == '/' {
        path
    } else {
        path + "/"@
    }
}

/// The path of a file in the directory of the daemon, below the home directory, or below
/// the working directory where there is none.
pub open spec fn daemon_path(home: Option<Seq<char>>, file: Seq<char>) -> Seq<char> {
    directory(
        match home {
            Some(h) => h,
            None => "."@,
        },
    ) + ".rsticulum/"@ + file
}

/// The path of a file in the directory of the daemon.
pub fn daemon_file(home: Option<&str>, file: &str) -> (path: String)
    ensures
        path@ == daemon_path(
            (match home {
                Some(h) => Some(h@),
                None => None,
            }),
            file@,
        ),
{
    let base: &str = match home {
        Some(h) => h,
        None => ".",
    };
    let chars: Vec<char> = text::chars_of(base);
    let n: usize = chars.len();
    let mut path: String = base.to_owned();
    if n > 0 && chars[n - 1] != '/' {
        path.append("/");
    }
    path.append(".rsticulum/");
    path.append(file);
    path
}

impl Default for InterfaceConfig {
    /// UDP on port 4242 of every address, without a name.
    fn default() -> (c: Self)
        ensures
            c.iface_type@ == "udp"@,
            c.bind@ == "0.0.0.0:4242"@,
            c.name@ == ""@,
    {
        InterfaceConfig {
            iface_type: "udp".to_owned(),
            bind: "0.0.0.0:4242".to_owned(),
            name: "".to_owned(),
        }
    }
}

impl Default for IcnConfig {
    /// Up to 10000 entries.
    fn default() -> (c: Self)
        ensures
            c.cs_max_entries == 10000,
    {
        IcnConfig { cs_max_entries: 10000 }
    }
}

impl Default for ApiConfig {
    /// Port 37428 of the loopback address.
    fn default() -> (c: Self)
        ensures
            c.bind@ == "127.0.0.1:37428"@,
    {
        ApiConfig { bind: "127.0.0.1:37428".to_owned() }
    }
}

impl IdentityConfig {
    /// The default: the key file in the directory of the daemon, below the given home
    /// directory.
    pub fn with_home(home: Option<&str>) -> (c: Self)
        ensures
            c.key_file@ == daemon_path(
                (match home {
                    Some(h) => Some(h@),
                    None => None,
                }),
                "identity.key"@,
            ),
    {
        IdentityConfig { key_file: daemon_file(home, "identity.key") }
    }
}

impl Config {
    /// The default: one UDP interface, the key file in the directory of the daemon below the
    /// given home directory, and no API socket.
    pub fn with_home(home: Option<&str>) -> (c: Self)
        ensures
            c.identity.key_file@ == daemon_path(
                (match home {
                    Some(h) => Some(h@),
                    None => None,
                }),
                "identity.key"@,
            ),
            c.interfaces@.len() == 1,
            c.interfaces@[0].iface_type@ == "udp"@,
            c.interfaces@[0].bind@ == "0.0.0.0:4242"@,
            c.interfaces@[0].name@ == ""@,
            c.icn.cs_max_entries == 10000,
            c.api is None,
    {
        let mut interfaces: Vec<InterfaceConfig> = Vec::new();
        interfaces.push(InterfaceConfig::default());
        Config {
            identity: IdentityConfig::with_home(home),
            interfaces,
            icn: IcnConfig::default(),
            api: None,
        }
    }
}

/// The types and addresses of interfaces, as in `udp:0.0.0.0:4242`, separated by commas.
pub open spec fn interface_list(interfaces: Seq<InterfaceConfig>) -> Seq<char>
    decreases interfaces.len(),
{
    if interfaces.len() == 0 {
        ""@
    } else {
        let last = interfaces.last();
        let entry = last.iface_type@ + ":"@ + last.bind@;
        if interfaces.len() == 1 {
            entry
        } else {
            interface_list(interfaces.drop_last()) + ", "@ + entry
        }
    }
}

/// Lists the types and addresses of interfaces.
pub fn list_interfaces(interfaces: &[InterfaceConfig]) -> (s: String)
    ensures
        s@ == interface_list(interfaces@),
{
    let mut s: String = "".to_owned();
    let mut i: usize = 0;
    assert(interfaces@.take(0) =~= Seq::empty());
    while i < interfaces.len()
        invariant
            i <= interfaces@.len(),
            s@ == interface_list(interfaces@.take(i as int)),
        decreases interfaces@.len() - i,
    {
        proof {
            assert(interfaces@.take(i + 1).drop_last() =~= interfaces@.take(i as int));
            reveal_strlit("");
        }
        if i > 0 {
            s.append(", ");
        }
        let ghost begun = s@;
        s.append(interfaces[i].iface_type.as_str());
        s.append(":");
        s.append(interfaces[i].bind.as_str());
        let ghost entry = interfaces@[i as int].iface_type@ + ":"@ + interfaces@[i as int].bind@;
        assert(s@ =~= begun + entry);
        i = i + 1;
    }
    assert(interfaces@.take(i as int) =~= interfaces@);
    s
}

/// The name of an interface for display: its own, or its type and address.
pub open spec fn display_name(name: Seq<char>, bind: Seq<char>) -> Seq<char> {
    if name.len() == 0 {
        "udp-"@ + bind
    } else {
        name
    }
}

/// What to do with an interface.
#[derive(Debug, Clone, PartialEq, Eq)]
pub enum Binding {
    /// Bind a UDP socket, under this name.
    Udp(String),
    /// The type is not known.
    Unknown,
}

impl InterfaceConfig {
    /// What to do with the interface.
    pub fn binding(&self) -> (b: Binding)
        ensures
            (if self.iface_type@ == "udp"@ {
                b matches Binding::Udp(n) && n@ == display_name(self.name@, self.bind@)
            } else {
                b is Unknown
            }),
    {
        if self.iface_type == "udp".to_owned() {
            if self.name.as_str().is_empty() {
                Binding::Udp(text::join("udp-", self.bind.as_str()))
            } else {
                Binding::Udp(self.name.as_str().to_owned())
            }
        } else {
            Binding::Unknown
        }
    }
}

/// The files of the daemon are in its directory below the home directory, or below the
/// working directory where there is no home.
pub proof fn law_daemon_files(home: Seq<char>, file: Seq<char>)
    requires
        home.len() > 0,
    ensures
        home.last() != '/' ==> daemon_path(Some(home), file) == home + "/.rsticulum/"@ + file,
        home.last() == '/' ==> daemon_path(Some(home), file) == home + ".rsticulum/"@ + file,
        daemon_path(None, file) == "./.rsticulum/"@ + file,
{
    reveal_strlit("/");
    reveal_strlit(".");
    reveal_strlit(".rsticulum/");
    reveal_strlit("/.rsticulum/");
    reveal_strlit("./.rsticulum/");
    assert("/.rsticulum/"@ =~= "/"@ + ".rsticulum/"@);
    assert("./.rsticulum/"@ =~= "."@ + "/"@ + ".rsticulum/"@);
    if home.last() != '/' {
        assert(daemon_path(Some(home), file) =~= home + "/.rsticulum/"@ + file);
    }
    assert("."@.last() == '.');
    assert(daemon_path(None, file) =~= "./.rsticulum/"@ + file);
}

/// The default has one UDP interface on port 4242 of all addresses, the key file in the
/// daemon's directory, room for ten thousand pieces of content, and no API.
pub proof fn law_default_config(home: Option<&str>, c: Config, i: IdentityConfig)
    requires
        call_ensures(Config::with_home, (home,), c),
        call_ensures(IdentityConfig::with_home, (home,), i),
    ensures
        c.interfaces@.len() == 1,
        c.interfaces@[0].iface_type@ == "udp"@,
        c.interfaces@[0].bind@ == "0.0.0.0:4242"@,
        c.icn.cs_max_entries == 10000,
        c.api is None,
        c.identity.key_file@ == i.key_file@,
        home matches Some(h) ==> i.key_file@ == daemon_path(Some(h@), "identity.key"@),
        home is None ==> i.key_file@ == daemon_path(None, "identity.key"@),
{
}

/// A UDP interface is bound under its name, or, where it has none, under one made of its
/// address; an interface of another type is not known.
pub proof fn law_binding(i: &InterfaceConfig, b: Binding)
    requires
        call_ensures(InterfaceConfig::binding, (i,), b),
    ensures
        i.iface_type@ == "udp"@ && i.name@.len() > 0 ==> (b matches Binding::Udp(n) && n@
            == i.name@),
        i.iface_type@ == "udp"@ && i.name@.len() == 0 ==> (b matches Binding::Udp(n) && n@
            == "udp-"@ + i.bind@),
        i.iface_type@ != "udp"@ ==> b is Unknown,
{
}

/// The list of the interfaces gives each by its type and address, parted by commas.
pub proof fn law_interfaces_are_listed(
    one: &[InterfaceConfig],
    first: String,
    more: &[InterfaceConfig],
    all: String,
)
    requires
        call_ensures(list_interfaces, (one,), first),
        call_ensures(list_interfaces, (more,), all),
        more@.len() == one@.len() + 1,
        more@.drop_last() == one@,
    ensures
        one@.len() == 0 ==> first@.len() == 0,
        one@.len() == 0 ==> all@ == more@.last().iface_type@ + ":"@ + more@.last().bind@,
        one@.len() > 0 ==> all@ == first@ + ", "@ + (more@.last().iface_type@ + ":"@
            + more@.last().bind@),
{
    reveal_strlit("");
}

} // verus!
