//! A single reverse proxy: its settings, how they are read, set and unset, and the nginx
//! server block rendered from them.
use vstd::prelude::*;

use crate::error::{ErrorView, NrpError};
use crate::text::{
    bool_text, bool_to_string, decimal, parse_bool, parse_bool_spec, parse_u16, parse_u16_spec,
    u16_to_string,
};

verus! {

/// The configuration of one reverse proxy (its listen domain is the key it is stored under).
#[derive(Debug)]
pub struct Proxy {
    /// The port on which to listen for matching requests.
    pub listen_port: u16,
    /// The domain to which requests are forwarded.
    pub dest_domain: String,
    /// The port to which requests are forwarded.
    pub dest_port: u16,
    /// The maximum allowed size of the client request body.
    pub client_max_body_size: Option<String>,
    /// The proxy is disabled if this is `Some(true)`.
    pub disabled: Option<bool>,
    /// Gzip is turned on in the rendered configuration if this is `Some(true)`.
    pub gzip: Option<bool>,
}

/// The mathematical value of a [`Proxy`].
pub struct ProxyView {
    pub listen_port: u16,
    pub dest_domain: Seq<char>,
    pub dest_port: u16,
    pub client_max_body_size: Option<Seq<char>>,
    pub disabled: Option<bool>,
    pub gzip: Option<bool>,
}

/// The characters of an optional string.
pub open spec fn opt_view(o: Option<String>) -> Option<Seq<char>> {
    match o {
        Some(s) => Some(s@),
        None => None,
    }
}

impl View for Proxy {
    type V = ProxyView;

    open spec fn view(&self) -> ProxyView {
        ProxyView {
            listen_port: self.listen_port,
            dest_domain: self.dest_domain@,
            dest_port: self.dest_port,
            client_max_body_size: opt_view(self.client_max_body_size),
            disabled: self.disabled,
            gzip: self.gzip,
        }
    }
}

/// The keys whose values can be read or set for a proxy.
#[derive(Clone, Copy, Debug, PartialEq, Eq, Structural)]
pub enum ProxySettingKey {
    /// The port on which to listen for requests.
    ListenPort,
    /// The destination domain to which to forward requests.
    DestDomain,
    /// The destination port to which to forward requests.
    DestPort,
    /// The maximum acceptable request body size (e.g. "512m").
    ClientMaxBodySize,
    /// Whether the reverse proxy is disabled.
    Disabled,
    /// Whether to gzip response content.
    Gzip,
}

/// The keys which are optional and can be unset for a proxy.
#[derive(Clone, Copy, Debug, PartialEq, Eq, Structural)]
pub enum ProxySettingKeyOptional {
    /// The maximum acceptable request body size (e.g. "512m").
    ClientMaxBodySize,
    /// Whether the reverse proxy is disabled.
    Disabled,
    /// Whether to gzip response content.
    Gzip,
}

/// A key of a proxy together with its value.
#[derive(Debug)]
pub enum ProxySetting {
    ListenPort(u16),
    DestDomain(String),
    DestPort(u16),
    ClientMaxBodySize(Option<String>),
    Disabled(Option<bool>),
    Gzip(Option<bool>),
}

/// The mathematical value of a [`ProxySetting`].
pub enum SettingView {
    ListenPort(u16),
    DestDomain(Seq<char>),
    DestPort(u16),
    ClientMaxBodySize(Option<Seq<char>>),
    Disabled(Option<bool>),
    Gzip(Option<bool>),
}

impl View for ProxySetting {
    type V = SettingView;

    open spec fn view(&self) -> SettingView {
        match self {
            ProxySetting::ListenPort(p) => SettingView::ListenPort(*p),
            ProxySetting::DestDomain(s) => SettingView::DestDomain(s@),
            ProxySetting::DestPort(p) => SettingView::DestPort(*p),
            ProxySetting::ClientMaxBodySize(o) => SettingView::ClientMaxBodySize(opt_view(*o)),
            ProxySetting::Disabled(b) => SettingView::Disabled(*b),
            ProxySetting::Gzip(b) => SettingView::Gzip(*b),
        }
    }
}

/// The key that a setting is a value of.
pub open spec fn setting_key(s: SettingView) -> ProxySettingKey {
    match s {
        SettingView::ListenPort(_) => ProxySettingKey::ListenPort,
        SettingView::DestDomain(_) => ProxySettingKey::DestDomain,
        SettingView::DestPort(_) => ProxySettingKey::DestPort,
        SettingView::ClientMaxBodySize(_) => ProxySettingKey::ClientMaxBodySize,
        SettingView::Disabled(_) => ProxySettingKey::Disabled,
        SettingView::Gzip(_) => ProxySettingKey::Gzip,
    }
}

/// The general key that an optional key is.
pub open spec fn optional_key(k: ProxySettingKeyOptional) -> ProxySettingKey {
    match k {
        ProxySettingKeyOptional::ClientMaxBodySize => ProxySettingKey::ClientMaxBodySize,
        ProxySettingKeyOptional::Disabled => ProxySettingKey::Disabled,
        ProxySettingKeyOptional::Gzip => ProxySettingKey::Gzip,
    }
}

/// The setting that a text value gives for a key: ports must be port numbers and
/// booleans `true` or `false`; domains and sizes are taken as they are.
pub open spec fn parse_setting_spec(key: ProxySettingKey, value: Seq<char>) -> Result<
    SettingView,
    ErrorView,
> {
    match key {
        ProxySettingKey::ListenPort => match parse_u16_spec(value) {
            Ok(p) => Ok(SettingView::ListenPort(p)),
            Err(k) => Err(ErrorView::BadListenPort(value, k)),
        },
        ProxySettingKey::DestDomain => Ok(SettingView::DestDomain(value)),
        ProxySettingKey::DestPort => match parse_u16_spec(value) {
            Ok(p) => Ok(SettingView::DestPort(p)),
            Err(k) => Err(ErrorView::BadDestPort(value, k)),
        },
        ProxySettingKey::ClientMaxBodySize => Ok(SettingView::ClientMaxBodySize(Some(value))),
        ProxySettingKey::Disabled => match parse_bool_spec(value) {
            Some(b) => Ok(SettingView::Disabled(Some(b))),
            None => Err(ErrorView::BadBool(value)),
        },
        ProxySettingKey::Gzip => match parse_bool_spec(value) {
            Some(b) => Ok(SettingView::Gzip(Some(b))),
            None => Err(ErrorView::BadBool(value)),
        },
    }
}

/// The name of an optional key.
pub open spec fn optional_key_name(k: ProxySettingKeyOptional) -> Seq<char> {
    match k {
        ProxySettingKeyOptional::ClientMaxBodySize => "client-max-body-size"@,
        ProxySettingKeyOptional::Disabled => "disabled"@,
        ProxySettingKeyOptional::Gzip => "gzip"@,
    }
}

/// How a setting is shown, in a form that is valid TOML; an unset value is a comment.
pub open spec fn setting_text(s: SettingView) -> Seq<char> {
    match s {
        SettingView::ListenPort(p) => "\"listen-port\" = "@ + decimal(p as nat),
        SettingView::DestDomain(d) => "\"dest-domain\" = \""@ + d + "\""@,
        SettingView::DestPort(p) => "\"dest-port\" = "@ + decimal(p as nat),
        SettingView::ClientMaxBodySize(Some(v)) => "\"client-max-body-size\" = \""@ + v + "\""@,
        SettingView::ClientMaxBodySize(None) => "# \"client-max-body-size\" is unset"@,
        SettingView::Disabled(Some(b)) => "\"disabled\" = "@ + bool_text(b),
        SettingView::Disabled(None) => "# \"disabled\" is unset"@,
        SettingView::Gzip(Some(b)) => "\"gzip\" = "@ + bool_text(b),
        SettingView::Gzip(None) => "# \"gzip\" is unset"@,
    }
}

/// The first lines of a rendered server block, up to the `server_name` directive.
pub const SERVER_HEAD: &'static str =
    "# Managed by nrpctl -- any changes will be overwritten, so do not manually edit\nserver {\n    ";

/// The gzip directives of a rendered server block.
pub const GZIP_BLOCK: &'static str = "
    gzip on;
    gzip_types
      application/javascript
      application/x-javascript
      application/json
      application/xml
      application/xml+rss
      application/rss+xml
      image/svg+xml
      image/xml+svg
      image/x-icon
      application/vnd.ms-fontobject
      application/font-sfnt
      text/css
      text/javascript
      text/plain
      text/xml;
    gzip_min_length 256;
    gzip_comp_level 5;
    gzip_http_version 1.1;
    gzip_proxy any;
    gzip_vary on;
";

/// The lines of a rendered server block between the `proxy_pass` directive and the body size.
pub const LOCATION_TAIL: &'static str = "

        proxy_set_header Host $http_host;
        proxy_set_header X-Real-IP $remote_addr;
        proxy_set_header X-Forwarded-For $proxy_add_x_forwarded_for;
        proxy_set_header X-Forwarded-Proto $scheme;
        proxy_redirect off;
    }

    fastcgi_request_buffering off;
    ";

impl ProxyView {
    /// The proxy is disabled exactly when `disabled` is `Some(true)`.
    pub open spec fn is_disabled(self) -> bool {
        self.disabled == Some(true)
    }

    /// The value of a key.
    pub open spec fn get_key_spec(self, key: ProxySettingKey) -> SettingView {
        match key {
            ProxySettingKey::ListenPort => SettingView::ListenPort(self.listen_port),
            ProxySettingKey::DestDomain => SettingView::DestDomain(self.dest_domain),
            ProxySettingKey::DestPort => SettingView::DestPort(self.dest_port),
            ProxySettingKey::ClientMaxBodySize => SettingView::ClientMaxBodySize(
                self.client_max_body_size,
            ),
            ProxySettingKey::Disabled => SettingView::Disabled(self.disabled),
            ProxySettingKey::Gzip => SettingView::Gzip(self.gzip),
        }
    }

    /// The proxy with one setting replaced.
    pub open spec fn with_setting(self, s: SettingView) -> ProxyView {
        match s {
            SettingView::ListenPort(p) => ProxyView { listen_port: p, ..self },
            SettingView::DestDomain(d) => ProxyView { dest_domain: d, ..self },
            SettingView::DestPort(p) => ProxyView { dest_port: p, ..self },
            SettingView::ClientMaxBodySize(v) => ProxyView { client_max_body_size: v, ..self },
            SettingView::Disabled(b) => ProxyView { disabled: b, ..self },
            SettingView::Gzip(b) => ProxyView { gzip: b, ..self },
        }
    }

    /// The proxy with an optional setting unset.
    pub open spec fn without(self, key: ProxySettingKeyOptional) -> ProxyView {
        match key {
            ProxySettingKeyOptional::ClientMaxBodySize => ProxyView {
                client_max_body_size: None,
                ..self
            },
            ProxySettingKeyOptional::Disabled => ProxyView { disabled: None, ..self },
            ProxySettingKeyOptional::Gzip => ProxyView { gzip: None, ..self },
        }
    }

    /// The nginx configuration rendered for this proxy under a listen domain: a comment
    /// when the proxy is disabled, else a server block.
    pub open spec fn render_spec(self, listen_domain: Seq<char>) -> Seq<char> {
        if self.is_disabled() {
            "\n# "@ + listen_domain + " disabled\n"@
        } else {
            block_head(listen_domain, self.listen_port) + gzip_text(self.gzip) + block_tail(
                self.dest_domain,
                self.dest_port,
                self.client_max_body_size,
            )
        }
    }
}

/// The `server_name` directive for a listen domain.
pub open spec fn server_name_line(d: Seq<char>) -> Seq<char> {
    "server_name "@ + d + ";"@
}

/// The `listen` directive for a port.
pub open spec fn listen_line(port: u16) -> Seq<char> {
    "listen "@ + decimal(port as nat) + ";"@
}

/// The `proxy_pass` directive for a destination.
pub open spec fn proxy_pass_line(dest_domain: Seq<char>, dest_port: u16) -> Seq<char> {
    "proxy_pass http://"@ + dest_domain + ":"@ + decimal(dest_port as nat) + ";"@
}

/// A server block up to its `listen` directive.
pub open spec fn block_head(d: Seq<char>, listen_port: u16) -> Seq<char> {
    SERVER_HEAD@ + server_name_line(d) + "\n\n    "@ + listen_line(listen_port) + "\n"@
}

/// The gzip directives, present only when gzip is turned on.
pub open spec fn gzip_text(gzip: Option<bool>) -> Seq<char> {
    if gzip == Some(true) {
        GZIP_BLOCK@
    } else {
        Seq::empty()
    }
}

/// A server block from its `location` up to the body size directive.
pub open spec fn block_location(dest_domain: Seq<char>, dest_port: u16) -> Seq<char> {
    "\n    location / {\n        "@ + proxy_pass_line(dest_domain, dest_port) + LOCATION_TAIL@
}

/// A server block from its `location` to its end.
pub open spec fn block_tail(
    dest_domain: Seq<char>,
    dest_port: u16,
    limit: Option<Seq<char>>,
) -> Seq<char> {
    block_location(dest_domain, dest_port) + body_size_text(limit) + "\n}\n"@
}

/// The nginx directive that limits the request body size, if a limit is set; without one,
/// nginx's default applies.
pub open spec fn body_size_text(limit: Option<Seq<char>>) -> Seq<char> {
    match limit {
        Some(s) => "client_max_body_size "@ + s + ";"@,
        None => Seq::empty(),
    }
}

fn body_size_directive(limit: &Option<String>) -> (r: String)
    ensures
        r@ == body_size_text(opt_view(*limit)),
{
    match limit {
        Some(size) => {
            let mut r = String::from_str("client_max_body_size ");
            r.append(size.as_str());
            r.append(";");
            r
        },
        None => String::new(),
    }
}

/// A freshly created proxy: no body size limit, not disabled.
pub open spec fn new_proxy_spec(
    listen_port: u16,
    dest_domain: Seq<char>,
    dest_port: u16,
    gzip: Option<bool>,
) -> ProxyView {
    ProxyView {
        listen_port,
        dest_domain,
        dest_port,
        client_max_body_size: None,
        disabled: None,
        gzip,
    }
}

fn clone_opt_string(o: &Option<String>) -> (r: Option<String>)
    ensures
        opt_view(r) == opt_view(*o),
{
    match o {
        Some(s) => Some(s.clone()),
        None => None,
    }
}

impl Proxy {
    /// Create a new proxy with the given source and destination.
    pub fn new(listen_port: u16, dest_domain: String, dest_port: u16, gzip: Option<bool>) -> (r:
        Proxy)
        ensures
            r@ == new_proxy_spec(listen_port, dest_domain@, dest_port, gzip),
    {
        Proxy {
            listen_port,
            dest_domain,
            dest_port,
            client_max_body_size: None,
            disabled: None,
            gzip,
        }
    }

    /// Disable the proxy. Returns whether the proxy was previously disabled.
    pub fn disable(&mut self) -> (r: bool)
        ensures
            r == old(self)@.is_disabled(),
            final(self)@ == (ProxyView { disabled: Some(true), ..old(self)@ }),
    {
        let prev = match self.disabled {
            Some(true) => true,
            _ => false,
        };
        self.disabled = Some(true);
        prev
    }

    /// Enable the proxy. Returns whether the proxy was previously disabled.
    pub fn enable(&mut self) -> (r: bool)
        ensures
            r == old(self)@.is_disabled(),
            final(self)@ == (ProxyView { disabled: None, ..old(self)@ }),
    {
        let prev = match self.disabled {
            Some(true) => true,
            _ => false,
        };
        self.disabled = None;
        prev
    }

    /// Get the value of the given key.
    pub fn get_key(&self, key: ProxySettingKey) -> (r: ProxySetting)
        ensures
            r@ == self@.get_key_spec(key),
    {
        match key {
            ProxySettingKey::ListenPort => ProxySetting::ListenPort(self.listen_port),
            ProxySettingKey::DestDomain => ProxySetting::DestDomain(self.dest_domain.clone()),
            ProxySettingKey::DestPort => ProxySetting::DestPort(self.dest_port),
            ProxySettingKey::ClientMaxBodySize => ProxySetting::ClientMaxBodySize(
                clone_opt_string(&self.client_max_body_size),
            ),
            ProxySettingKey::Disabled => ProxySetting::Disabled(self.disabled),
            ProxySettingKey::Gzip => ProxySetting::Gzip(self.gzip),
        }
    }

    /// Set the given key to the given value and return the new setting. A value that does
    /// not parse for the key is refused and the proxy is left as it was.
    pub fn set_key(&mut self, key: ProxySettingKey, value: String) -> (r: Result<
        ProxySetting,
        NrpError,
    >)
        ensures
            match parse_setting_spec(key, value@) {
                Ok(s) => r matches Ok(t) && t@ == s && final(self)@ == old(self)@.with_setting(s),
                Err(e) => r matches Err(x) && x@ == e && final(self)@ == old(self)@,
            },
    {
        let setting = match key.parse(value) {
            Ok(s) => s,
            Err(e) => return Err(e),
        };
        match &setting {
            ProxySetting::ListenPort(port) => self.listen_port = *port,
            ProxySetting::DestDomain(domain) => self.dest_domain = domain.clone(),
            ProxySetting::DestPort(port) => self.dest_port = *port,
            ProxySetting::ClientMaxBodySize(size) => self.client_max_body_size = clone_opt_string(
                size,
            ),
            ProxySetting::Disabled(val) => self.disabled = *val,
            ProxySetting::Gzip(val) => self.gzip = *val,
        };
        Ok(setting)
    }

    /// Unset the given key and return its previous setting.
    pub fn unset_key(&mut self, key: ProxySettingKeyOptional) -> (r: ProxySetting)
        ensures
            r@ == old(self)@.get_key_spec(optional_key(key)),
            final(self)@ == old(self)@.without(key),
    {
        match key {
            ProxySettingKeyOptional::ClientMaxBodySize => {
                let orig = self.client_max_body_size.take();
                ProxySetting::ClientMaxBodySize(orig)
            },
            ProxySettingKeyOptional::Disabled => {
                let orig = self.disabled;
                self.disabled = None;
                ProxySetting::Disabled(orig)
            },
            ProxySettingKeyOptional::Gzip => {
                let orig = self.gzip;
                self.gzip = None;
                ProxySetting::Gzip(orig)
            },
        }
    }

    /// Render the nginx configuration of this proxy for the given listen domain.
    pub fn render(&self, listen_domain: &str) -> (r: String)
        ensures
            r@ == self@.render_spec(listen_domain@),
    {
        if let Some(true) = self.disabled {
            let mut s = String::from_str("\n# ");
            s.append(listen_domain);
            s.append(" disabled\n");
            return s;
        }
        let mut s = String::from_str(SERVER_HEAD);
        s.append("server_name ");
        s.append(listen_domain);
        s.append(";");
        s.append("\n\n    ");
        s.append("listen ");
        let lp = u16_to_string(self.listen_port);
        s.append(lp.as_str());
        s.append(";");
        s.append("\n");
        assert(s@ =~= block_head(listen_domain@, self.listen_port));
        let ghost head = s@;
        match self.gzip {
            Some(true) => s.append(GZIP_BLOCK),
            _ => {},
        }
        assert(s@ =~= head + gzip_text(self.gzip));
        let mut t = String::from_str("\n    location / {\n        ");
        t.append("proxy_pass http://");
        t.append(self.dest_domain.as_str());
        t.append(":");
        let dp = u16_to_string(self.dest_port);
        t.append(dp.as_str());
        t.append(";");
        t.append(LOCATION_TAIL);
        assert(t@ =~= block_location(self.dest_domain@, self.dest_port));
        let limit = body_size_directive(&self.client_max_body_size);
        t.append(limit.as_str());
        t.append("\n}\n");
        s.append(t.as_str());
        s
    }
}

impl ProxySetting {
    /// Show the setting in a form that is valid TOML; an unset value becomes a comment.
    pub fn to_string(&self) -> (r: String)
        ensures
            r@ == setting_text(self@),
    {
        match self {
            ProxySetting::ListenPort(port) => {
                let mut s = String::from_str("\"listen-port\" = ");
                let n = u16_to_string(*port);
                s.append(n.as_str());
                s
            },
            ProxySetting::DestDomain(d) => {
                let mut s = String::from_str("\"dest-domain\" = \"");
                s.append(d.as_str());
                s.append("\"");
                s
            },
            ProxySetting::DestPort(port) => {
                let mut s = String::from_str("\"dest-port\" = ");
                let n = u16_to_string(*port);
                s.append(n.as_str());
                s
            },
            ProxySetting::ClientMaxBodySize(Some(v)) => {
                let mut s = String::from_str("\"client-max-body-size\" = \"");
                s.append(v.as_str());
                s.append("\"");
                s
            },
            ProxySetting::ClientMaxBodySize(None) => String::from_str(
                "# \"client-max-body-size\" is unset",
            ),
            ProxySetting::Disabled(Some(b)) => {
                let mut s = String::from_str("\"disabled\" = ");
                let t = bool_to_string(*b);
                s.append(t.as_str());
                s
            },
            ProxySetting::Disabled(None) => String::from_str("# \"disabled\" is unset"),
            ProxySetting::Gzip(Some(b)) => {
                let mut s = String::from_str("\"gzip\" = ");
                let t = bool_to_string(*b);
                s.append(t.as_str());
                s
            },
            ProxySetting::Gzip(None) => String::from_str("# \"gzip\" is unset"),
        }
    }
}

impl ProxySettingKeyOptional {
    /// The key's name.
    pub fn to_string(&self) -> (r: String)
        ensures
            r@ == optional_key_name(*self),
    {
        match self {
            ProxySettingKeyOptional::ClientMaxBodySize => String::from_str("client-max-body-size"),
            ProxySettingKeyOptional::Disabled => String::from_str("disabled"),
            ProxySettingKeyOptional::Gzip => String::from_str("gzip"),
        }
    }
}

impl ProxySettingKey {
    /// Read a value for this key from text.
    pub fn parse(&self, value: String) -> (r: Result<ProxySetting, NrpError>)
        ensures
            match parse_setting_spec(*self, value@) {
                Ok(s) => r matches Ok(t) && t@ == s,
                Err(e) => r matches Err(x) && x@ == e,
            },
    {
        match self {
            ProxySettingKey::ListenPort => match parse_u16(value.as_str()) {
                Ok(p) => Ok(ProxySetting::ListenPort(p)),
                Err(k) => Err(NrpError::BadListenPort(value, k)),
            },
            ProxySettingKey::DestDomain => Ok(ProxySetting::DestDomain(value)),
            ProxySettingKey::DestPort => match parse_u16(value.as_str()) {
                Ok(p) => Ok(ProxySetting::DestPort(p)),
                Err(k) => Err(NrpError::BadDestPort(value, k)),
            },
            ProxySettingKey::ClientMaxBodySize => Ok(
                ProxySetting::ClientMaxBodySize(Some(value)),
            ),
            ProxySettingKey::Disabled => match parse_bool(value.as_str()) {
                Some(b) => Ok(ProxySetting::Disabled(Some(b))),
                None => Err(NrpError::BadBool(value)),
            },
            ProxySettingKey::Gzip => match parse_bool(value.as_str()) {
                Some(b) => Ok(ProxySetting::Gzip(Some(b))),
                None => Err(NrpError::BadBool(value)),
            },
        }
    }

    /// Every key, once each, in declaration order.
    pub fn all() -> (r: Vec<ProxySettingKey>)
        ensures
            r@ == seq![
                ProxySettingKey::ListenPort,
                ProxySettingKey::DestDomain,
                ProxySettingKey::DestPort,
                ProxySettingKey::ClientMaxBodySize,
                ProxySettingKey::Disabled,
                ProxySettingKey::Gzip,
            ],
    {
        let mut v = Vec::new();
        v.push(ProxySettingKey::ListenPort);
        v.push(ProxySettingKey::DestDomain);
        v.push(ProxySettingKey::DestPort);
        v.push(ProxySettingKey::ClientMaxBodySize);
        v.push(ProxySettingKey::Disabled);
        v.push(ProxySettingKey::Gzip);
        assert(v@ =~= seq![
            ProxySettingKey::ListenPort,
            ProxySettingKey::DestDomain,
            ProxySettingKey::DestPort,
            ProxySettingKey::ClientMaxBodySize,
            ProxySettingKey::Disabled,
            ProxySettingKey::Gzip,
        ]);
        v
    }
}

/// The value that unsetting leaves for an optional key.
pub open spec fn unset_setting(k: ProxySettingKeyOptional) -> SettingView {
    match k {
        ProxySettingKeyOptional::ClientMaxBodySize => SettingView::ClientMaxBodySize(None),
        ProxySettingKeyOptional::Disabled => SettingView::Disabled(None),
        ProxySettingKeyOptional::Gzip => SettingView::Gzip(None),
    }
}

/// A value parsed for a key is a value of that key.
pub proof fn law_parse_keeps_key(key: ProxySettingKey, value: Seq<char>)
    ensures
        parse_setting_spec(key, value) matches Ok(s) ==> setting_key(s) == key,
{
}

/// Reading a key after setting it gives the setting that the set returned.
pub proof fn law_get_after_set(p: ProxyView, key: ProxySettingKey, value: Seq<char>)
    ensures
        parse_setting_spec(key, value) matches Ok(s) ==> p.with_setting(s).get_key_spec(key) == s,
{
}

/// Setting one key leaves every other key as it was.
pub proof fn law_set_leaves_other_keys(p: ProxyView, s: SettingView, other: ProxySettingKey)
    requires
        other != setting_key(s),
    ensures
        p.with_setting(s).get_key_spec(other) == p.get_key_spec(other),
{
}

/// Reading an optional key after unsetting it gives the unset value, and every other key is
/// as it was.
pub proof fn law_get_after_unset(p: ProxyView, k: ProxySettingKeyOptional, other: ProxySettingKey)
    ensures
        p.without(k).get_key_spec(optional_key(k)) == unset_setting(k),
        other != optional_key(k) ==> p.without(k).get_key_spec(other) == p.get_key_spec(other),
{
}

/// Setting a port from its decimal text sets that port.
pub proof fn law_port_text_roundtrip(port: u16)
    ensures
        parse_setting_spec(ProxySettingKey::ListenPort, decimal(port as nat)) == Ok::<
            SettingView,
            ErrorView,
        >(SettingView::ListenPort(port)),
        parse_setting_spec(ProxySettingKey::DestPort, decimal(port as nat)) == Ok::<
            SettingView,
            ErrorView,
        >(SettingView::DestPort(port)),
{
    crate::text::law_decimal_parse_roundtrip(port);
}

/// Setting a boolean key from its text sets that value.
pub proof fn law_bool_text_roundtrip(b: bool)
    ensures
        parse_setting_spec(ProxySettingKey::Disabled, bool_text(b)) == Ok::<SettingView, ErrorView>(
            SettingView::Disabled(Some(b)),
        ),
        parse_setting_spec(ProxySettingKey::Gzip, bool_text(b)) == Ok::<SettingView, ErrorView>(
            SettingView::Gzip(Some(b)),
        ),
{
    crate::text::law_bool_parse_roundtrip(b);
}

/// A disabled proxy renders as a single comment naming its domain, whatever its settings.
pub proof fn law_disabled_renders_comment(p: ProxyView, d: Seq<char>)
    ensures
        (ProxyView { disabled: Some(true), ..p }).render_spec(d) == "\n# "@ + d + " disabled\n"@,
{
}

/// Disabling and then enabling a proxy that was not disabled gives back the same proxy, and
/// the enable reports that it was disabled.
pub proof fn law_disable_then_enable(p: ProxyView)
    requires
        p.disabled is None,
    ensures
        (ProxyView { disabled: Some(true), ..p }).is_disabled(),
        (ProxyView { disabled: None, ..(ProxyView { disabled: Some(true), ..p }) }) == p,
{
}

/// `x` occurs as a stretch of `s`.
pub open spec fn occurs_in(x: Seq<char>, s: Seq<char>) -> bool {
    exists|a: Seq<char>, b: Seq<char>| #[trigger] (a + x + b) == s
}

proof fn lemma_occurs_here(a: Seq<char>, x: Seq<char>, b: Seq<char>)
    ensures
        occurs_in(x, a + x + b),
{
    assert(a + x + b == a + x + b);
}

proof fn lemma_occurs_at_end(a: Seq<char>, x: Seq<char>)
    ensures
        occurs_in(x, a + x),
{
    assert(a + x + Seq::<char>::empty() =~= a + x);
    lemma_occurs_here(a, x, Seq::<char>::empty());
}

proof fn lemma_occurs_extend(x: Seq<char>, s: Seq<char>, c: Seq<char>)
    requires
        occurs_in(x, s),
    ensures
        occurs_in(x, s + c),
        occurs_in(x, c + s),
{
    let (a, b) = choose|a: Seq<char>, b: Seq<char>| #[trigger] (a + x + b) == s;
    assert(s + c =~= a + x + (b + c));
    lemma_occurs_here(a, x, b + c);
    assert(c + s =~= (c + a) + x + b);
    lemma_occurs_here(c + a, x, b);
}

/// A proxy that is not disabled renders a server block that names its listen domain, listens
/// on its port and passes requests to its destination.
pub proof fn law_render_shows_settings(p: ProxyView, d: Seq<char>)
    requires
        !p.is_disabled(),
    ensures
        occurs_in("server_name "@ + d + ";"@, p.render_spec(d)),
        occurs_in("listen "@ + decimal(p.listen_port as nat) + ";"@, p.render_spec(d)),
        occurs_in(
            "proxy_pass http://"@ + p.dest_domain + ":"@ + decimal(p.dest_port as nat) + ";"@,
            p.render_spec(d),
        ),
{
    let snl = server_name_line(d);
    let ll = listen_line(p.listen_port);
    let ppl = proxy_pass_line(p.dest_domain, p.dest_port);
    let g = gzip_text(p.gzip);
    let t = block_tail(p.dest_domain, p.dest_port, p.client_max_body_size);
    // server_name
    lemma_occurs_at_end(SERVER_HEAD@, snl);
    lemma_occurs_extend(snl, SERVER_HEAD@ + snl, "\n\n    "@);
    lemma_occurs_extend(snl, SERVER_HEAD@ + snl + "\n\n    "@, ll);
    lemma_occurs_extend(snl, SERVER_HEAD@ + snl + "\n\n    "@ + ll, "\n"@);
    // listen
    lemma_occurs_at_end(SERVER_HEAD@ + snl + "\n\n    "@, ll);
    lemma_occurs_extend(ll, SERVER_HEAD@ + snl + "\n\n    "@ + ll, "\n"@);
    let h = block_head(d, p.listen_port);
    lemma_occurs_extend(snl, h, g);
    lemma_occurs_extend(snl, h + g, t);
    lemma_occurs_extend(ll, h, g);
    lemma_occurs_extend(ll, h + g, t);
    // proxy_pass
    let loc = "\n    location / {\n        "@;
    lemma_occurs_at_end(loc, ppl);
    lemma_occurs_extend(ppl, loc + ppl, LOCATION_TAIL@);
    let bl = block_location(p.dest_domain, p.dest_port);
    lemma_occurs_extend(ppl, bl, body_size_text(p.client_max_body_size));
    lemma_occurs_extend(ppl, bl + body_size_text(p.client_max_body_size), "\n}\n"@);
    lemma_occurs_extend(ppl, t, h + g);
}

/// The gzip directives are rendered exactly when gzip is turned on: with gzip off or unset the
/// rendering is the same as with gzip unset, and turning it on inserts the gzip block into
/// that rendering and changes nothing else.
pub proof fn law_gzip_only_when_on(p: ProxyView, d: Seq<char>)
    ensures
        p.gzip != Some(true) ==> p.render_spec(d) == (ProxyView { gzip: None, ..p }).render_spec(
            d,
        ),
        !p.is_disabled() && p.gzip == Some(true) ==> exists|k: int|
            0 <= k <= (ProxyView { gzip: None, ..p }).render_spec(d).len() && #[trigger] (
            ProxyView { gzip: None, ..p }).render_spec(d).take(k) + GZIP_BLOCK@ + (ProxyView {
                gzip: None,
                ..p
            }).render_spec(d).skip(k) == p.render_spec(d),
{
    let q = ProxyView { gzip: None, ..p };
    let h = block_head(d, p.listen_port);
    let t = block_tail(p.dest_domain, p.dest_port, p.client_max_body_size);
    if !p.is_disabled() {
        assert(q.render_spec(d) =~= h + t);
        if p.gzip != Some(true) {
            assert(p.render_spec(d) =~= h + t);
        } else {
            let k = h.len() as int;
            assert(q.render_spec(d).take(k) =~= h);
            assert(q.render_spec(d).skip(k) =~= t);
            assert(q.render_spec(d).take(k) + GZIP_BLOCK@ + q.render_spec(d).skip(k)
                == p.render_spec(d));
        }
    }
}

/// A body size limit is rendered as a `client_max_body_size` directive inserted into the
/// rendering without a limit, which it otherwise leaves unchanged.
pub proof fn law_body_size_directive(p: ProxyView, d: Seq<char>, size: Seq<char>)
    requires
        !p.is_disabled(),
    ensures
        exists|k: int|
            0 <= k <= (ProxyView { client_max_body_size: None, ..p }).render_spec(d).len()
                && #[trigger] (ProxyView { client_max_body_size: None, ..p }).render_spec(d).take(
                k,
            ) + ("client_max_body_size "@ + size + ";"@) + (ProxyView {
                client_max_body_size: None,
                ..p
            }).render_spec(d).skip(k) == (ProxyView {
                client_max_body_size: Some(size),
                ..p
            }).render_spec(d),
{
    let q = ProxyView { client_max_body_size: None, ..p };
    let w = ProxyView { client_max_body_size: Some(size), ..p };
    let h = block_head(d, p.listen_port);
    let g = gzip_text(p.gzip);
    let bl = block_location(p.dest_domain, p.dest_port);
    let dir = "client_max_body_size "@ + size + ";"@;
    let end = "\n}\n"@;
    assert(q.render_spec(d) =~= (h + g + bl) + end);
    assert(w.render_spec(d) =~= (h + g + bl) + dir + end);
    let k = (h + g + bl).len() as int;
    assert(q.render_spec(d).take(k) =~= h + g + bl);
    assert(q.render_spec(d).skip(k) =~= end);
    assert(q.render_spec(d).take(k) + dir + q.render_spec(d).skip(k) == w.render_spec(d));
}

/// Showing a port or a boolean setting gives its key's name, ` = `, and a value that reads
/// back, for the same key, as the same setting; a domain or size is shown as a quoted string.
pub proof fn law_setting_text_reads_back(b: bool, port: u16, text: Seq<char>)
    ensures
        ({
            let t = setting_text(SettingView::Disabled(Some(b)));
            let pre = "\"disabled\" = "@;
            t.take(pre.len() as int) == pre && parse_setting_spec(
                ProxySettingKey::Disabled,
                t.skip(pre.len() as int),
            ) == Ok::<SettingView, ErrorView>(SettingView::Disabled(Some(b)))
        }),
        ({
            let t = setting_text(SettingView::Gzip(Some(b)));
            let pre = "\"gzip\" = "@;
            t.take(pre.len() as int) == pre && parse_setting_spec(
                ProxySettingKey::Gzip,
                t.skip(pre.len() as int),
            ) == Ok::<SettingView, ErrorView>(SettingView::Gzip(Some(b)))
        }),
        ({
            let t = setting_text(SettingView::ListenPort(port));
            let pre = "\"listen-port\" = "@;
            t.take(pre.len() as int) == pre && parse_setting_spec(
                ProxySettingKey::ListenPort,
                t.skip(pre.len() as int),
            ) == Ok::<SettingView, ErrorView>(SettingView::ListenPort(port))
        }),
        ({
            let t = setting_text(SettingView::DestPort(port));
            let pre = "\"dest-port\" = "@;
            t.take(pre.len() as int) == pre && parse_setting_spec(
                ProxySettingKey::DestPort,
                t.skip(pre.len() as int),
            ) == Ok::<SettingView, ErrorView>(SettingView::DestPort(port))
        }),
        setting_text(SettingView::DestDomain(text)) == "\"dest-domain\" = \""@ + text + "\""@,
        setting_text(SettingView::ClientMaxBodySize(Some(text))) == "\"client-max-body-size\" = \""@
            + text + "\""@,
{
    crate::text::law_bool_parse_roundtrip(b);
    crate::text::law_decimal_parse_roundtrip(port);
    let t1 = setting_text(SettingView::Disabled(Some(b)));
    let p1 = "\"disabled\" = "@;
    assert(t1.take(p1.len() as int) =~= p1);
    assert(t1.skip(p1.len() as int) =~= bool_text(b));
    let t2 = setting_text(SettingView::Gzip(Some(b)));
    let p2 = "\"gzip\" = "@;
    assert(t2.take(p2.len() as int) =~= p2);
    assert(t2.skip(p2.len() as int) =~= bool_text(b));
    let t3 = setting_text(SettingView::ListenPort(port));
    let p3 = "\"listen-port\" = "@;
    assert(t3.take(p3.len() as int) =~= p3);
    assert(t3.skip(p3.len() as int) =~= decimal(port as nat));
    let t4 = setting_text(SettingView::DestPort(port));
    let p4 = "\"dest-port\" = "@;
    assert(t4.take(p4.len() as int) =~= p4);
    assert(t4.skip(p4.len() as int) =~= decimal(port as nat));
}

/// A freshly created proxy keeps every value it was given: reading any key gives that value,
/// and it has no body size limit and is not disabled.
pub proof fn law_new_proxy_keeps_values(
    listen_port: u16,
    dest_domain: Seq<char>,
    dest_port: u16,
    gzip: Option<bool>,
)
    ensures
        ({
            let p = new_proxy_spec(listen_port, dest_domain, dest_port, gzip);
            &&& p.listen_port == listen_port
            &&& p.dest_domain == dest_domain
            &&& p.dest_port == dest_port
            &&& p.gzip == gzip
            &&& p.client_max_body_size is None
            &&& p.disabled is None
            &&& p.get_key_spec(ProxySettingKey::ListenPort) == SettingView::ListenPort(listen_port)
            &&& p.get_key_spec(ProxySettingKey::DestDomain) == SettingView::DestDomain(dest_domain)
            &&& p.get_key_spec(ProxySettingKey::DestPort) == SettingView::DestPort(dest_port)
            &&& p.get_key_spec(ProxySettingKey::Gzip) == SettingView::Gzip(gzip)
        }),
{
}

/// Text set as the destination domain or the body size is stored as it is, and the
/// destination is what the rendered server block passes requests to.
pub proof fn law_text_values_kept(p: ProxyView, value: Seq<char>, d: Seq<char>)
    ensures
        parse_setting_spec(ProxySettingKey::DestDomain, value) == Ok::<SettingView, ErrorView>(
            SettingView::DestDomain(value),
        ),
        parse_setting_spec(ProxySettingKey::ClientMaxBodySize, value) == Ok::<
            SettingView,
            ErrorView,
        >(SettingView::ClientMaxBodySize(Some(value))),
        p.with_setting(SettingView::DestDomain(value)).dest_domain == value,
        p.with_setting(SettingView::ClientMaxBodySize(Some(value))).client_max_body_size == Some(
            value,
        ),
        !p.is_disabled() ==> occurs_in(
            "proxy_pass http://"@ + value + ":"@ + decimal(p.dest_port as nat) + ";"@,
            p.with_setting(SettingView::DestDomain(value)).render_spec(d),
        ),
{
    if !p.is_disabled() {
        law_render_shows_settings(p.with_setting(SettingView::DestDomain(value)), d);
    }
}

/// Only `disabled = Some(true)` disables a proxy: a proxy with `Some(false)` renders as it
/// does with the setting unset, and a disabled proxy renders as a comment whatever else it
/// holds.
pub proof fn law_disabled_only_when_true(p: ProxyView, d: Seq<char>)
    ensures
        p.disabled != Some(true) ==> !p.is_disabled() && p.render_spec(d) == (ProxyView {
            disabled: None,
            ..p
        }).render_spec(d),
        p.disabled == Some(true) ==> p.is_disabled() && p.render_spec(d) == "\n# "@ + d
            + " disabled\n"@,
{
}

/// Setting a key changes exactly that field of the proxy to the given value.
pub proof fn law_with_setting_fields(p: ProxyView, port: u16, text: Seq<char>, flag: Option<bool>, limit: Option<Seq<char>>)
    ensures
        p.with_setting(SettingView::ListenPort(port)) == (ProxyView { listen_port: port, ..p }),
        p.with_setting(SettingView::DestPort(port)) == (ProxyView { dest_port: port, ..p }),
        p.with_setting(SettingView::DestDomain(text)) == (ProxyView { dest_domain: text, ..p }),
        p.with_setting(SettingView::ClientMaxBodySize(limit)) == (ProxyView {
            client_max_body_size: limit,
            ..p
        }),
        p.with_setting(SettingView::Disabled(flag)) == (ProxyView { disabled: flag, ..p }),
        p.with_setting(SettingView::Gzip(flag)) == (ProxyView { gzip: flag, ..p }),
        p.without(ProxySettingKeyOptional::ClientMaxBodySize) == (ProxyView {
            client_max_body_size: None,
            ..p
        }),
        p.without(ProxySettingKeyOptional::Disabled) == (ProxyView { disabled: None, ..p }),
        p.without(ProxySettingKeyOptional::Gzip) == (ProxyView { gzip: None, ..p }),
{
}

} // verus!
