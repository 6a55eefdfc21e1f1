//! A browser in a freshly started container: composing the run command, finding the debug
//! endpoint that the container announces in its log, and probing the published ports.
use vstd::prelude::*;
use headless_chrome::Browser;
use crate::endpoint::{
    browser_path, decimal, decomposes_to, endpoint_url, digits_value, is_digits, is_parsable_endpoint_url,
    matches_at, parse_port, push_decimal, ws_scheme, ProxyConfig, ProxyConfigComponents,
};
use crate::fallback::Attempts;

verus! {

/// Runs the container tool. `run` hands the tool `args` and returns the lines that it
/// printed on its standard output, or what went wrong.
pub trait ContainerRuntime {
    fn run(&mut self, args: &Vec<String>) -> Result<Vec<String>, String>;
}

/// Opens sessions on debug endpoints.
pub trait EndpointConnector {
    type Session;

    fn connect(&mut self, url: &String) -> Result<Self::Session, String>;
}

pub open spec fn result_views(r: Result<Vec<String>, String>) -> Result<Seq<Seq<char>>, Seq<char>> {
    match r {
        Ok(lines) => Ok(views(lines@)),
        Err(e) => Err(e@),
    }
}

/// Nothing where an attempt opened a session; its message where it failed.
pub open spec fn outcome_of<T>(r: Result<T, String>) -> Option<Seq<char>> {
    match r {
        Ok(_) => None,
        Err(e) => Some(e@),
    }
}

/// What has been appended to a record since it stood at `before`.
pub open spec fn since<A>(before: Seq<A>, after: Seq<A>) -> Seq<A> {
    after.subrange(before.len() as int, after.len() as int)
}

/// `after` is `before` with more entries at its end.
pub open spec fn extends<A>(before: Seq<A>, after: Seq<A>) -> bool {
    before.len() <= after.len() && after.subrange(0, before.len() as int) == before
}

/// A container runtime with a record of every call: its arguments and what came back.
pub struct RuntimeLog<R: ContainerRuntime> {
    pub runtime: R,
    pub calls: Ghost<Seq<(Seq<Seq<char>>, Result<Seq<Seq<char>>, Seq<char>>)>>,
}

impl<R: ContainerRuntime> RuntimeLog<R> {
    pub fn new(runtime: R) -> (r: Self)
        ensures
            r.runtime == runtime,
            r.calls@.len() == 0,
    {
        RuntimeLog { runtime, calls: Ghost(Seq::empty()) }
    }

    pub fn run(&mut self, args: &Vec<String>) -> (r: Result<Vec<String>, String>)
        ensures
            final(self).calls@ == old(self).calls@.push((views(args@), result_views(r))),
    {
        let r = self.runtime.run(args);
        self.calls = Ghost(self.calls@.push((views(args@), result_views(r))));
        r
    }
}

/// An endpoint connector with a record of every attempt: its URL and its outcome.
pub struct ConnectorLog<C: EndpointConnector> {
    pub connector: C,
    pub attempts: Ghost<Seq<(Seq<char>, Option<Seq<char>>)>>,
}

impl<C: EndpointConnector> ConnectorLog<C> {
    pub fn new(connector: C) -> (r: Self)
        ensures
            r.connector == connector,
            r.attempts@.len() == 0,
    {
        ConnectorLog { connector, attempts: Ghost(Seq::empty()) }
    }

    pub fn connect(&mut self, url: &String) -> (r: Result<C::Session, String>)
        ensures
            final(self).attempts@ == old(self).attempts@.push((url@, outcome_of(r))),
    {
        let r = self.connector.connect(url);
        self.attempts = Ghost(self.attempts@.push((url@, outcome_of(r))));
        r
    }
}

/// The endpoint URL for port `p`.
pub open spec fn port_url(endpoint: ProxyConfigComponents, p: u16) -> Seq<char> {
    endpoint_url(endpoint.ip@, Some(p), endpoint.token@)
}

/// `log` records attempts on the URLs of `ports`, in order, each of which failed.
pub open spec fn port_attempts_failed(
    endpoint: ProxyConfigComponents,
    ports: Seq<u16>,
    log: Seq<(Seq<char>, Option<Seq<char>>)>,
) -> bool {
    &&& log.len() == ports.len()
    &&& forall|k: int| 0 <= k < log.len() ==> (#[trigger] log[k]).0 == port_url(endpoint, ports[k]) && log[k].1 is Some
}

/// The probe opened a session on port `i`: the ports before it were tried, in order, and
/// failed; port `i` was tried last, and opened.
pub open spec fn probe_succeeded(
    endpoint: ProxyConfigComponents,
    ports: Seq<u16>,
    log: Seq<(Seq<char>, Option<Seq<char>>)>,
    i: int,
) -> bool {
    &&& 0 <= i < ports.len()
    &&& log.len() == i + 1
    &&& port_attempts_failed(endpoint, ports.take(i), log.take(i))
    &&& log[i] == (port_url(endpoint, ports[i]), None::<Seq<char>>)
}

/// Every port was tried, in order, and failed; `f` holds one message per port, naming the
/// port and carrying its attempt's own message.
pub open spec fn probe_exhausted(
    endpoint: ProxyConfigComponents,
    ports: Seq<u16>,
    log: Seq<(Seq<char>, Option<Seq<char>>)>,
    f: Seq<Seq<char>>,
) -> bool {
    &&& port_attempts_failed(endpoint, ports, log)
    &&& f.len() == ports.len()
    &&& forall|k: int| 0 <= k < f.len() ==> #[trigger] f[k] == port_failure(ports[k], log[k].1->0)
}

/// One call of the container tool: its arguments and what came back.
pub type ToolCall = (Seq<Seq<char>>, Result<Seq<Seq<char>>, Seq<char>>);

/// One attempt to open a session: its URL, and nothing where it opened or its message
/// where it failed.
pub type Attempt = (Seq<char>, Option<Seq<char>>);

/// `r` is the failure of the container tool with message `e`.
pub open spec fn runtime_error_is<T>(r: Result<T, ProvisionError>, e: Seq<char>) -> bool {
    match r {
        Err(ProvisionError::Runtime(m)) => m@ == e,
        _ => false,
    }
}

/// A provisioning run, as the container tool's calls and the connection attempts record
/// it: the tool is asked to start the container, then for its log, and, where the log
/// announces an endpoint, for its ports, each with the container id that the start
/// printed first. The first failure of the tool, an empty start output or a log without
/// an announced endpoint ends the run before anything is connected.
pub open spec fn provisioning_run<T>(c: DockerConfig, calls: Seq<ToolCall>, log: Seq<Attempt>, r: Result<T, ProvisionError>) -> bool {
    &&& 1 <= calls.len() <= 3
    &&& calls[0].0 == run_arguments(c)
    &&& (calls.len() < 3 ==> log.len() == 0)
    &&& match calls[0].1 {
        Err(e) => calls.len() == 1 && runtime_error_is(r, e),
        Ok(out) => if out.len() == 0 {
            calls.len() == 1 && (r matches Err(ProvisionError::NoContainerId))
        } else {
            &&& calls.len() >= 2
            &&& calls[1].0 == seq!["logs"@, out[0]]
            &&& match calls[1].1 {
                Err(e) => calls.len() == 2 && runtime_error_is(r, e),
                Ok(logs) => if no_announcement(logs) {
                    calls.len() == 2 && (r matches Err(ProvisionError::NoDebugUrl))
                } else {
                    &&& calls.len() == 3
                    &&& calls[2].0 == seq!["port"@, out[0]]
                    &&& match calls[2].1 {
                        Err(e) => runtime_error_is(r, e),
                        Ok(port_lines) => probe_run(logs, port_lines, log, r),
                    }
                },
            }
        },
    }
}

/// What follows the tool's three calls, the log announcing an endpoint: with a malformed
/// one, the run fails before anything is connected; otherwise the planned ports are probed.
pub open spec fn probe_run<T>(logs: Seq<Seq<char>>, port_lines: Seq<Seq<char>>, log: Seq<Attempt>, r: Result<T, ProvisionError>) -> bool {
    if malformed_announcement(logs) {
        log.len() == 0 && (r matches Err(ProvisionError::MalformedDebugUrl(_)))
    } else {
        exists|e: ProxyConfigComponents|
            #[trigger] probe_plan(logs, port_lines, e, mapped_ports(port_lines)) && probe_done(e, mapped_ports(port_lines), log, r)
    }
}

/// The probe of `ports` ended in `r`: a session from the first port that opened, or the
/// failure of every port.
pub open spec fn probe_done<T>(e: ProxyConfigComponents, ports: Seq<u16>, log: Seq<Attempt>, r: Result<T, ProvisionError>) -> bool {
    match r {
        Ok(_) => exists|i: int| probe_succeeded(e, ports, log, i),
        Err(ProvisionError::PortsExhausted(f)) => probe_exhausted(e, ports, log, views(f@)),
        Err(_) => false,
    }
}

/// No line of the log announces an endpoint.
pub open spec fn no_announcement(logs: Seq<Seq<char>>) -> bool {
    forall|k: int| 0 <= k < logs.len() ==> !announces_url(#[trigger] logs[k])
}

/// The endpoint that the log announces first cannot be decomposed.
pub open spec fn malformed_announcement(logs: Seq<Seq<char>>) -> bool {
    exists|k: int, u: Seq<char>|
        first_announcing_line(logs, k) && #[trigger] announced_url(logs[k], u) && !is_parsable_endpoint_url(u)
}

/// What to probe: the endpoint that the log announces first, moved to `localhost` with
/// its token kept, on the ports that the port lines name, in order.
pub open spec fn probe_plan(
    logs: Seq<Seq<char>>,
    port_lines: Seq<Seq<char>>,
    endpoint: ProxyConfigComponents,
    ports: Seq<u16>,
) -> bool {
    &&& endpoint.ip@ == "localhost"@
    &&& endpoint.port is None
    &&& endpoint.wf()
    &&& ports == mapped_ports(port_lines)
    &&& exists|k: int, u: Seq<char>, h: Seq<char>, p: Option<u16>|
        first_announcing_line(logs, k) && #[trigger] announced_url(logs[k], u)
            && #[trigger] decomposes_to(u, h, p, endpoint.token@)
}

/// Why a containerized browser could not be had.
#[derive(Debug, Clone, PartialEq)]
pub enum ProvisionError {
    /// The container tool failed.
    Runtime(String),
    /// The container tool printed no container identifier.
    NoContainerId,
    /// No line of the container's log announces a debug endpoint.
    NoDebugUrl,
    /// The announced endpoint could not be decomposed.
    MalformedDebugUrl(String),
    /// Every published port was tried and failed, one message for each, in order.
    PortsExhausted(Vec<String>),
}

pub open spec fn occurs_at(s: Seq<char>, pat: Seq<char>, i: int) -> bool {
    0 <= i && i + pat.len() <= s.len() && s.subrange(i, i + pat.len()) == pat
}

pub open spec fn is_first_occurrence(s: Seq<char>, pat: Seq<char>, i: int) -> bool {
    occurs_at(s, pat, i) && forall|k: int| 0 <= k < i ==> !#[trigger] occurs_at(s, pat, k)
}

/// The first `ws://` of `line` stands at `i` and `/devtools/browser/` comes after it.
pub open spec fn announced_at(line: Seq<char>, i: int) -> bool {
    is_first_occurrence(line, ws_scheme(), i)
        && exists|j: int| j >= i + 5 && #[trigger] occurs_at(line, browser_path(), j)
}

pub open spec fn announces_url(line: Seq<char>) -> bool {
    exists|i: int| #[trigger] announced_at(line, i)
}

/// `url` is what `line` announces: the line from its first `ws://` to its end.
pub open spec fn announced_url(line: Seq<char>, url: Seq<char>) -> bool {
    exists|i: int| #[trigger] announced_at(line, i) && url == line.subrange(i, line.len() as int)
}

/// The first line of the log that announces an endpoint stands at `k`.
pub open spec fn first_announcing_line(lines: Seq<Seq<char>>, k: int) -> bool {
    &&& 0 <= k < lines.len()
    &&& announces_url(lines[k])
    &&& forall|l: int| 0 <= l < k ==> !announces_url(#[trigger] lines[l])
}

/// `t` is the decimal text of `p`, with at most one leading `+`, as Rust's integer
/// parsing reads it.
pub open spec fn port_number_is(t: Seq<char>, p: u16) -> bool {
    ||| is_digits(t) && digits_value(t) == p as nat
    ||| t.len() > 0 && t[0] == '+' && is_digits(t.drop_first()) && digits_value(t.drop_first()) == p as nat
}

/// A port-mapping line `<port>/<proto> -> <host>:<port>` names the external port `p`:
/// all that follows its first `:` is the number `p`.
pub open spec fn mapped_port_is(line: Seq<char>, p: u16) -> bool {
    exists|c: int|
        #[trigger] is_first_occurrence(line, seq![':'], c)
            && port_number_is(line.subrange(c + 1, line.len() as int), p)
}

pub open spec fn mapped_port(line: Seq<char>) -> Option<u16> {
    if exists|p: u16| #[trigger] mapped_port_is(line, p) {
        Some(choose|p: u16| #[trigger] mapped_port_is(line, p))
    } else {
        None
    }
}

/// The external ports named by the lines, in order, lines that name none left out.
pub open spec fn mapped_ports(lines: Seq<Seq<char>>) -> Seq<u16>
    decreases lines.len(),
{
    if lines.len() == 0 {
        Seq::empty()
    } else {
        let rest = mapped_ports(lines.drop_last());
        match mapped_port(lines.last()) {
            Some(p) => rest.push(p),
            None => rest,
        }
    }
}

pub open spec fn views(v: Seq<String>) -> Seq<Seq<char>> {
    v.map_values(|s: String| s@)
}

/// The arguments of the container tool that start the browser's container.
pub open spec fn run_arguments(c: DockerConfig) -> Seq<Seq<char>> {
    let ports = match c.port_mapping {
        Some(m) => seq!["-p"@, m@],
        None => seq!["-P"@],
    };
    seq!["run"@] + ports + views(c.additional_flags@) + seq![c.image_path@]
}

/// The message that records the failure `error` of port `p`.
pub open spec fn port_failure(p: u16, error: Seq<char>) -> Seq<char> {
    "port "@ + decimal(p as nat) + ": "@ + error
}

/// `m` records a failure of port `p`.
pub open spec fn is_port_failure(m: Seq<char>, p: u16) -> bool {
    exists|e: Seq<char>| m == #[trigger] port_failure(p, e)
}

/// The schema for Docker configuration, which spins up a new container and connects to
/// the port that it publishes for the browser's debug endpoint.
#[derive(Debug, Clone, PartialEq)]
pub struct DockerConfig {
    /// Additional flags to pass to `docker run`.
    pub additional_flags: Vec<String>,
    /// The image of the headless browser.
    pub image_path: String,
    /// `host:container` port mapping; where there is none, every exposed port is published.
    pub port_mapping: Option<String>,
}

impl Default for DockerConfig {
    fn default() -> (r: Self)
        ensures
            views(r.additional_flags@) == seq!["--rm"@, "-d"@, "--cap-add=SYS_ADMIN"@],
            r.image_path@ == "docker.io/justinribeiro/chrome-headless:latest"@,
            r.port_mapping is None,
    {
        let mut flags: Vec<String> = Vec::new();
        flags.push("--rm".to_owned());
        flags.push("-d".to_owned());
        flags.push("--cap-add=SYS_ADMIN".to_owned());
        let r = DockerConfig {
            additional_flags: flags,
            image_path: "docker.io/justinribeiro/chrome-headless:latest".to_owned(),
            port_mapping: None,
        };
        assert(views(r.additional_flags@) =~= seq!["--rm"@, "-d"@, "--cap-add=SYS_ADMIN"@]);
        r
    }
}

impl DockerConfig {
    /// The arguments that start the container.
    pub fn run_args(&self) -> (r: Vec<String>)
        ensures
            views(r@) == run_arguments(*self),
    {
        let mut args: Vec<String> = Vec::new();
        args.push("run".to_owned());
        match &self.port_mapping {
            Some(m) => {
                args.push("-p".to_owned());
                args.push(m.clone());
            },
            None => {
                args.push("-P".to_owned());
            },
        }
        let ghost start = views(args@);
        let mut i: usize = 0;
        while i < self.additional_flags.len()
            invariant
                i <= self.additional_flags@.len(),
                views(args@) == start + views(self.additional_flags@.subrange(0, i as int)),
            decreases self.additional_flags@.len() - i,
        {
            let ghost before = args@;
            let flag = self.additional_flags[i].clone();
            assert(flag@ == self.additional_flags@[i as int]@);
            args.push(flag);
            assert(views(args@) =~= views(before).push(flag@));
            assert(views(self.additional_flags@.subrange(0, i + 1)) =~= views(
                self.additional_flags@.subrange(0, i as int),
            ).push(self.additional_flags@[i as int]@));
            assert(views(args@) =~= start + views(self.additional_flags@.subrange(0, i + 1)));
            i += 1;
        }
        let ghost before = args@;
        let image = self.image_path.clone();
        args.push(image);
        assert(views(args@) =~= views(before).push(image@));
        assert(self.additional_flags@.subrange(0, i as int) =~= self.additional_flags@);
        assert(views(args@) =~= run_arguments(*self));
        args
    }

    /// The endpoint URL that a log line announces: from its first `ws://` to its end,
    /// where `/devtools/browser/` follows that `ws://`.
    pub fn try_get_debug_ws_url(line: &str) -> (r: Option<String>)
        ensures
            r is Some <==> announces_url(line@),
            r matches Some(u) ==> announced_url(line@, u@),
    {
        proof {
            reveal_strlit("ws://");
            reveal_strlit("/devtools/browser/");
            assert("ws://"@ =~= ws_scheme());
            assert("/devtools/browser/"@ =~= browser_path());
        }
        let n = line.unicode_len();
        let mut i: usize = 0;
        while n >= 5 && i <= n - 5 && !matches_at(line, i, "ws://")
            invariant
                n == line@.len(),
                i <= n,
                "ws://"@ == ws_scheme(),
                forall|k: int| 0 <= k < i ==> !#[trigger] occurs_at(line@, ws_scheme(), k),
            decreases n - i,
        {
            i += 1;
        }
        if n < 5 || i > n - 5 {
            proof {
                assert forall|k: int| !#[trigger] occurs_at(line@, ws_scheme(), k) by {
                    if k >= i {
                        assert(k + 5 > n);
                    }
                }
                assert forall|k: int| !#[trigger] announced_at(line@, k) by {}
            }
            return None;
        }
        assert(is_first_occurrence(line@, ws_scheme(), i as int));
        let mut j: usize = i + 5;
        while n >= 18 && j <= n - 18 && !matches_at(line, j, "/devtools/browser/")
            invariant
                n == line@.len(),
                i + 5 <= j <= n,
                "/devtools/browser/"@ == browser_path(),
                forall|k: int| i + 5 <= k < j ==> !#[trigger] occurs_at(line@, browser_path(), k),
            decreases n - j,
        {
            j += 1;
        }
        if n < 18 || j > n - 18 {
            proof {
                assert forall|k: int| !#[trigger] announced_at(line@, k) by {
                    if announced_at(line@, k) {
                        assert(k == i as int) by {
                            if k < i {
                                assert(!occurs_at(line@, ws_scheme(), k));
                            } else if k > i {
                                assert(!occurs_at(line@, ws_scheme(), i as int));
                            }
                        }
                        let jj = choose|jj: int| jj >= k + 5 && #[trigger] occurs_at(line@, browser_path(), jj);
                        if jj >= j {
                            assert(jj + 18 > n);
                        }
                    }
                }
            }
            return None;
        }
        assert(occurs_at(line@, browser_path(), j as int));
        assert(announced_at(line@, i as int));
        Some(line.substring_char(i, n).to_owned())
    }

    /// The endpoint URL announced by the first log line that announces one.
    pub fn debug_ws_from_log(lines: &Vec<String>) -> (r: Result<String, ProvisionError>)
        ensures
            r is Ok <==> exists|k: int| 0 <= k < lines@.len() && announces_url(#[trigger] lines@[k]@),
            r matches Ok(u) ==> exists|k: int|
                first_announcing_line(views(lines@), k) && announced_url(#[trigger] lines@[k]@, u@),
            r matches Err(e) ==> e == ProvisionError::NoDebugUrl,
    {
        let mut k: usize = 0;
        while k < lines.len()
            invariant
                k <= lines@.len(),
                forall|l: int| 0 <= l < k ==> !announces_url(#[trigger] lines@[l]@),
            decreases lines@.len() - k,
        {
            match Self::try_get_debug_ws_url(lines[k].as_str()) {
                Some(u) => {
                    assert(first_announcing_line(views(lines@), k as int));
                    return Ok(u);
                },
                None => {},
            }
            k += 1;
        }
        Err(ProvisionError::NoDebugUrl)
    }

    /// The external port that a port-mapping line names.
    pub fn port_from_mapping_line(line: &str) -> (r: Option<u16>)
        ensures
            r == mapped_port(line@),
    {
        let n = line.unicode_len();
        let mut c: usize = 0;
        while c < n && line.get_char(c) != ':'
            invariant
                n == line@.len(),
                c <= n,
                forall|k: int| 0 <= k < c ==> line@[k] != ':',
            decreases n - c,
        {
            c += 1;
        }
        let ghost colon = seq![':'];
        proof {
            assert forall|k: int| 0 <= k < c implies !#[trigger] occurs_at(line@, colon, k) by {
                assert(line@.subrange(k, k + 1)[0] == line@[k]);
            }
        }
        if c == n {
            proof {
                assert forall|p: u16| !#[trigger] mapped_port_is(line@, p) by {
                    assert forall|cc: int| !#[trigger] is_first_occurrence(line@, colon, cc) by {
                        if cc >= c {
                            assert(!occurs_at(line@, colon, cc));
                        }
                    }
                }
            }
            return None;
        }
        assert(line@.subrange(c as int, c + 1) =~= colon);
        assert(is_first_occurrence(line@, colon, c as int));
        let ghost t = line@.subrange(c + 1, n as int);
        let mut s: usize = c + 1;
        if s < n && line.get_char(s) == '+' {
            s += 1;
        }
        let ghost d = line@.subrange(s as int, n as int);
        proof {
            if s == c + 2 {
                assert(d =~= t.drop_first());
            } else {
                assert(d =~= t);
            }
        }
        let mut j: usize = s;
        while j < n && crate::endpoint::is_digit_char(line.get_char(j))
            invariant
                n == line@.len(),
                s <= j <= n,
                forall|k: int| s <= k < j ==> crate::endpoint::is_digit(#[trigger] line@[k]),
            decreases n - j,
        {
            j += 1;
        }
        let r = if j == n && j > s {
            assert forall|k: int| 0 <= k < d.len() implies crate::endpoint::is_digit(#[trigger] d[k]) by {
                assert(d[k] == line@[s + k]);
            }
            parse_port(line, s, n)
        } else {
            None
        };
        proof {
            if j < n {
                assert(d[j - s] == line@[j as int]);
            }
            if s == c + 2 {
                assert(t[0] == '+');
                assert(!crate::endpoint::is_digit(t[0]));
            } else if t.len() > 0 {
                assert(t[0] == line@[c + 1]);
            }
            // what follows the first colon names at most the port read here
            assert forall|p: u16| #[trigger] port_number_is(t, p) <==> r == Some(p) by {}
            // the first colon is unique, so the port it introduces is too
            assert forall|p: u16| #[trigger] mapped_port_is(line@, p) <==> port_number_is(t, p) by {
                if mapped_port_is(line@, p) {
                    let cc = choose|cc: int|
                        #[trigger] is_first_occurrence(line@, colon, cc)
                            && port_number_is(line@.subrange(cc + 1, line@.len() as int), p);
                    if cc < c {
                        assert(!occurs_at(line@, colon, cc));
                    } else if cc > c {
                        assert(!occurs_at(line@, colon, c as int));
                    }
                }
            }
            if let Some(p) = r {
                assert(mapped_port_is(line@, p));
                let q = choose|q: u16| #[trigger] mapped_port_is(line@, q);
                assert(port_number_is(t, q));
            }
        }
        r
    }

    /// The external ports that the port-mapping lines name, in order.
    pub fn ports_from_output(lines: &Vec<String>) -> (r: Vec<u16>)
        ensures
            r@ == mapped_ports(views(lines@)),
    {
        let mut ports: Vec<u16> = Vec::new();
        let mut k: usize = 0;
        while k < lines.len()
            invariant
                k <= lines@.len(),
                ports@ == mapped_ports(views(lines@).subrange(0, k as int)),
            decreases lines@.len() - k,
        {
            let p = Self::port_from_mapping_line(lines[k].as_str());
            assert(views(lines@).subrange(0, k + 1).drop_last() =~= views(lines@).subrange(0, k as int));
            if let Some(p) = p {
                ports.push(p);
            }
            k += 1;
        }
        assert(views(lines@).subrange(0, k as int) =~= views(lines@));
        ports
    }

    /// The announced endpoint, moved to `localhost`: its token kept, its port dropped.
    pub fn local_endpoint(ws_url: &str) -> (r: Result<ProxyConfigComponents, ProvisionError>)
        ensures
            r is Ok <==> is_parsable_endpoint_url(ws_url@),
            r matches Ok(c) ==> c.ip@ == "localhost"@ && c.port is None && c.wf()
                && exists|h: Seq<char>, p: Option<u16>| #[trigger] decomposes_to(ws_url@, h, p, c.token@),
            r matches Err(e) ==> e is MalformedDebugUrl,
    {
        match ProxyConfig::new(ws_url) {
            Err(e) => Err(ProvisionError::MalformedDebugUrl(e)),
            Ok(conf) => match conf.into_components() {
                Err(e) => Err(ProvisionError::MalformedDebugUrl(e)),
                Ok(comps) => {
                    proof {
                        reveal_strlit("localhost");
                    }
                    let ghost (h, p) = (comps.ip@, comps.port);
                    assert(decomposes_to(ws_url@, h, p, comps.token@));
                    Ok(ProxyConfigComponents { ip: "localhost".to_owned(), port: None, token: comps.token })
                },
            },
        }
    }

    /// Tries the endpoint on each port in order and keeps the first session that opens:
    /// the ports before it were tried and failed, and no port after it is tried. Where all
    /// fail, every port was tried and the error holds one message per port, in order, each
    /// naming its port and carrying that attempt's message.
    pub fn connect_to_ports<C: EndpointConnector>(
        endpoint: &ProxyConfigComponents,
        ports: &Vec<u16>,
        connector: &mut ConnectorLog<C>,
    ) -> (r: Result<(C::Session, usize), Vec<String>>)
        requires
            endpoint.wf(),
        ensures
            extends(old(connector).attempts@, final(connector).attempts@),
            r matches Ok((_, i)) ==> probe_succeeded(
                *endpoint,
                ports@,
                since(old(connector).attempts@, final(connector).attempts@),
                i as int,
            ),
            r matches Err(f) ==> probe_exhausted(
                *endpoint,
                ports@,
                since(old(connector).attempts@, final(connector).attempts@),
                views(f@),
            ),
    {
        let ghost start = connector.attempts@;
        assert(start.subrange(0, start.len() as int) =~= start);
        assert(since(start, start) =~= Seq::<Attempt>::empty());
        assert(ports@.take(0) =~= Seq::<u16>::empty());
        let mut attempts = Attempts::new(ports.len());
        loop
            invariant
                attempts.wf(),
                attempts.total == ports@.len(),
                endpoint.wf(),
                start == old(connector).attempts@,
                extends(start, connector.attempts@),
                port_attempts_failed(
                    *endpoint,
                    ports@.take(attempts.failures@.len() as int),
                    since(start, connector.attempts@),
                ),
                forall|k: int| 0 <= k < attempts.failures@.len() ==>
                    #[trigger] attempts.failures@[k]@ == port_failure(ports@[k], since(start, connector.attempts@)[k].1->0),
            decreases attempts.total - attempts.failures@.len(),
        {
            match attempts.next_index() {
                None => {
                    assert(ports@.take(attempts.failures@.len() as int) =~= ports@);
                    assert(views(attempts.failures@).len() == ports@.len());
                    assert forall|k: int| 0 <= k < ports@.len() implies #[trigger] views(attempts.failures@)[k]
                        == port_failure(ports@[k], since(start, connector.attempts@)[k].1->0) by {
                        assert(views(attempts.failures@)[k] == attempts.failures@[k]@);
                    }
                    return Err(attempts.failures);
                },
                Some(i) => {
                    let port = ports[i];
                    let conf = ProxyConfig::from_components(endpoint.ip.as_str(), Some(port), endpoint.token.as_str());
                    let ghost before = connector.attempts@;
                    let res = connector.connect(conf.debug_ws_url());
                    let ghost log = since(start, connector.attempts@);
                    assert(log =~= since(start, before).push((port_url(*endpoint, port), outcome_of(res))));
                    assert(log.take(i as int) =~= since(start, before));
                    assert(ports@.take(i as int + 1).take(i as int) =~= ports@.take(i as int));
                    assert(extends(start, connector.attempts@)) by {
                        assert(connector.attempts@.subrange(0, start.len() as int) =~= before.subrange(0, start.len() as int));
                    }
                    match res {
                        Ok(b) => {
                            return Ok((b, i));
                        },
                        Err(err) => {
                            let mut m = String::new();
                            m.append("port ");
                            push_decimal(&mut m, port);
                            m.append(": ");
                            m.append(err.as_str());
                            proof {
                                reveal_strlit("port ");
                                reveal_strlit(": ");
                                assert(m@ =~= port_failure(port, err@));
                            }
                            let ghost fb = attempts.failures@;
                            attempts.record_failure(m);
                            assert forall|k: int| 0 <= k < attempts.failures@.len() implies
                                #[trigger] attempts.failures@[k]@ == port_failure(ports@[k], log[k].1->0) by {
                                if k < fb.len() {
                                    assert(attempts.failures@[k] == fb[k]);
                                    assert(log[k] == since(start, before)[k]);
                                }
                            }
                            assert forall|k: int| 0 <= k < log.len() implies
                                (#[trigger] log[k]).0 == port_url(*endpoint, ports@.take(i as int + 1)[k]) && log[k].1 is Some by {
                                if k < i {
                                    assert(log[k] == since(start, before)[k]);
                                    assert(ports@.take(i as int)[k] == ports@[k]);
                                }
                            }
                        },
                    }
                },
            }
        }
    }

    /// Starts the container, reads the endpoint that its log announces and the ports that
    /// it publishes, and connects through the first port that works. The container tool
    /// is asked, in turn, to start the container, for its log and for its ports; the first
    /// failure of the tool, or an empty start output, ends the run before anything is
    /// connected.
    pub fn browser<R: ContainerRuntime, C: EndpointConnector>(
        &self,
        runtime: &mut RuntimeLog<R>,
        connector: &mut ConnectorLog<C>,
    ) -> (r: Result<C::Session, ProvisionError>)
        ensures
            extends(old(runtime).calls@, final(runtime).calls@),
            extends(old(connector).attempts@, final(connector).attempts@),
            provisioning_run(
                *self,
                since(old(runtime).calls@, final(runtime).calls@),
                since(old(connector).attempts@, final(connector).attempts@),
                r,
            ),
    {
        let ghost c0 = runtime.calls@;
        let ghost a0 = connector.attempts@;
        let args = self.run_args();
        let started = match runtime.run(&args) {
            Ok(lines) => lines,
            Err(e) => {
                assert(since(c0, runtime.calls@) =~= seq![(views(args@), Err::<Seq<Seq<char>>, Seq<char>>(e@))]);
                assert(runtime.calls@.subrange(0, c0.len() as int) =~= c0);
                assert(since(a0, connector.attempts@) =~= Seq::<(Seq<char>, Option<Seq<char>>)>::empty());
                assert(connector.attempts@.subrange(0, a0.len() as int) =~= a0);
                return Err(ProvisionError::Runtime(e));
            },
        };
        let ghost c1 = runtime.calls@;
        assert(since(c0, c1) =~= seq![(views(args@), Ok::<Seq<Seq<char>>, Seq<char>>(views(started@)))]);
        assert(c1.subrange(0, c0.len() as int) =~= c0);
        assert(connector.attempts@.subrange(0, a0.len() as int) =~= a0);
        assert(since(a0, connector.attempts@) =~= Seq::<(Seq<char>, Option<Seq<char>>)>::empty());
        if started.len() == 0 {
            return Err(ProvisionError::NoContainerId);
        }
        let container_id = started[0].clone();
        assert(views(started@)[0] == started@[0]@);
        let mut logs_args: Vec<String> = Vec::new();
        logs_args.push("logs".to_owned());
        logs_args.push(container_id.clone());
        assert(views(logs_args@) =~= seq!["logs"@, views(started@)[0]]);
        let logs = match runtime.run(&logs_args) {
            Ok(lines) => lines,
            Err(e) => {
                assert(since(c0, runtime.calls@) =~= since(c0, c1).push((views(logs_args@), Err::<Seq<Seq<char>>, Seq<char>>(e@))));
                assert(runtime.calls@.subrange(0, c0.len() as int) =~= c0);
                return Err(ProvisionError::Runtime(e));
            },
        };
        let ghost c2 = runtime.calls@;
        assert(since(c0, c2) =~= since(c0, c1).push((views(logs_args@), Ok::<Seq<Seq<char>>, Seq<char>>(views(logs@)))));
        assert(c2.subrange(0, c0.len() as int) =~= c0);
        let ws_url = match Self::debug_ws_from_log(&logs) {
            Ok(u) => u,
            Err(e) => {
                assert forall|k: int| 0 <= k < views(logs@).len() implies !announces_url(#[trigger] views(logs@)[k]) by {
                    assert(views(logs@)[k] == logs@[k]@);
                }
                return Err(e);
            },
        };
        let ghost k = choose|k: int| first_announcing_line(views(logs@), k) && announced_url(#[trigger] logs@[k]@, ws_url@);
        assert(views(logs@)[k] == logs@[k]@);
        assert(!no_announcement(views(logs@)));
        proof {
            lemma_first_announcement_unique(views(logs@), k, ws_url@);
        }
        let mut port_args: Vec<String> = Vec::new();
        port_args.push("port".to_owned());
        port_args.push(container_id);
        assert(views(port_args@) =~= seq!["port"@, views(started@)[0]]);
        let port_lines = match runtime.run(&port_args) {
            Ok(lines) => lines,
            Err(e) => {
                assert(since(c0, runtime.calls@) =~= since(c0, c2).push((views(port_args@), Err::<Seq<Seq<char>>, Seq<char>>(e@))));
                assert(runtime.calls@.subrange(0, c0.len() as int) =~= c0);
                return Err(ProvisionError::Runtime(e));
            },
        };
        assert(since(c0, runtime.calls@) =~= since(c0, c2).push((views(port_args@), Ok::<Seq<Seq<char>>, Seq<char>>(views(port_lines@)))));
        assert(runtime.calls@.subrange(0, c0.len() as int) =~= c0);
        let ports = Self::ports_from_output(&port_lines);
        let endpoint = match Self::local_endpoint(ws_url.as_str()) {
            Ok(e) => e,
            Err(e) => {
                assert(malformed_announcement(views(logs@)));
                return Err(e);
            },
        };
        assert(!malformed_announcement(views(logs@)));
        proof {
            reveal_strlit("localhost");
        }
        assert(probe_plan(views(logs@), views(port_lines@), endpoint, ports@));
        match Self::connect_to_ports(&endpoint, &ports, connector) {
            Ok((b, i)) => {
                assert(probe_succeeded(endpoint, ports@, since(a0, connector.attempts@), i as int));
                Ok(b)
            },
            Err(f) => Err(ProvisionError::PortsExhausted(f)),
        }
    }
}

/// The first announcing line is unique, and so is the URL it announces.
proof fn lemma_first_announcement_unique(logs: Seq<Seq<char>>, k: int, u: Seq<char>)
    requires
        first_announcing_line(logs, k),
        announced_url(logs[k], u),
    ensures
        forall|k2: int, u2: Seq<char>|
            first_announcing_line(logs, k2) && #[trigger] announced_url(logs[k2], u2) ==> k2 == k && u2 == u,
{
    assert forall|k2: int, u2: Seq<char>|
        first_announcing_line(logs, k2) && #[trigger] announced_url(logs[k2], u2) implies k2 == k && u2 == u by {
        if k2 < k {
            assert(!announces_url(logs[k2]));
        } else if k < k2 {
            assert(!announces_url(logs[k]));
        }
        let line = logs[k];
        let i1 = choose|i: int| #[trigger] announced_at(line, i) && u == line.subrange(i, line.len() as int);
        let i2 = choose|i: int| #[trigger] announced_at(line, i) && u2 == line.subrange(i, line.len() as int);
        if i1 < i2 {
            assert(!occurs_at(line, ws_scheme(), i1));
        } else if i2 < i1 {
            assert(!occurs_at(line, ws_scheme(), i2));
        }
    }
}

/// Each message followed by a line break, one after the other.
pub open spec fn joined_lines(s: Seq<Seq<char>>) -> Seq<char>
    decreases s.len(),
{
    if s.len() == 0 {
        Seq::empty()
    } else {
        joined_lines(s.drop_last()) + s.last() + seq!['\n']
    }
}

/// `head` followed by each message and a line break after it.
pub fn join_lines(head: &str, messages: &Vec<String>) -> (r: String)
    ensures
        r@ == head@ + joined_lines(views(messages@)),
{
    let mut m = head.to_owned();
    let mut k: usize = 0;
    while k < messages.len()
        invariant
            k <= messages@.len(),
            m@ == head@ + joined_lines(views(messages@).subrange(0, k as int)),
        decreases messages@.len() - k,
    {
        m.append(messages[k].as_str());
        m.append("\n");
        proof {
            reveal_strlit("\n");
            assert(views(messages@).subrange(0, k + 1).drop_last() =~= views(messages@).subrange(0, k as int));
        }
        assert(m@ =~= head@ + joined_lines(views(messages@).subrange(0, k + 1)));
        k += 1;
    }
    assert(views(messages@).subrange(0, k as int) =~= views(messages@));
    m
}

impl ProvisionError {
    /// The error as text.
    pub fn message(&self) -> (r: String)
        ensures
            self matches ProvisionError::Runtime(e) ==> r@ == e@,
            self is NoContainerId ==> r@ == "the container tool printed no container id"@,
            self is NoDebugUrl ==> r@ == "docker logs has no line matching 'ws://*/devtools/browser/*'"@,
            self matches ProvisionError::MalformedDebugUrl(e) ==> r@ == e@,
            self matches ProvisionError::PortsExhausted(f) ==> r@ == "None of the ports worked:\n"@ + joined_lines(views(f@)),
    {
        match self {
            ProvisionError::Runtime(e) => e.clone(),
            ProvisionError::NoContainerId => "the container tool printed no container id".to_owned(),
            ProvisionError::NoDebugUrl => "docker logs has no line matching 'ws://*/devtools/browser/*'".to_owned(),
            ProvisionError::MalformedDebugUrl(e) => e.clone(),
            ProvisionError::PortsExhausted(f) => {
                proof {
                    reveal_strlit("None of the ports worked:\n");
                }
                join_lines("None of the ports worked:\n", f)
            },
        }
    }
}

} // verus!
