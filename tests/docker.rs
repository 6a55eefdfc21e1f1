use cli_music_player::browser::ChromeConnector;
use cli_music_player::docker::{ConnectorLog, ContainerRuntime, DockerConfig, EndpointConnector, ProvisionError, RuntimeLog};
use cli_music_player::endpoint::ProxyConfigComponents;

fn strings(v: &[&str]) -> Vec<String> {
    v.iter().map(|s| s.to_string()).collect()
}

/// Answers the container tool's three commands from fixed text and records each call.
struct StubRuntime {
    logs: Vec<String>,
    ports: Vec<String>,
    calls: Vec<Vec<String>>,
}

impl ContainerRuntime for StubRuntime {
    fn run(&mut self, args: &Vec<String>) -> Result<Vec<String>, String> {
        self.calls.push(args.clone());
        match args[0].as_str() {
            "run" => Ok(strings(&["c0ffee"])),
            "logs" => Ok(self.logs.clone()),
            "port" => Ok(self.ports.clone()),
            _ => Err("unknown command".to_string()),
        }
    }
}

#[test]
fn debug_url_is_read_from_first_ws_on_a_line() {
    assert_eq!(
        DockerConfig::try_get_debug_ws_url("DevTools listening on ws://0.0.0.0:9222/devtools/browser/abc-1"),
        Some("ws://0.0.0.0:9222/devtools/browser/abc-1".to_string())
    );
    assert_eq!(DockerConfig::try_get_debug_ws_url("nothing here"), None);
    assert_eq!(DockerConfig::try_get_debug_ws_url("ws://host:1 only"), None);
    // the path must come after the ws://
    assert_eq!(DockerConfig::try_get_debug_ws_url("/devtools/browser/ then ws://x"), None);
}

#[test]
fn first_announcing_log_line_wins() {
    let logs = strings(&[
        "starting",
        "DevTools listening on ws://127.0.0.1:9222/devtools/browser/first",
        "again ws://127.0.0.1:9222/devtools/browser/second",
    ]);
    assert_eq!(
        DockerConfig::debug_ws_from_log(&logs),
        Ok("ws://127.0.0.1:9222/devtools/browser/first".to_string())
    );
    assert_eq!(DockerConfig::debug_ws_from_log(&strings(&["a", "b"])), Err(ProvisionError::NoDebugUrl));
    assert_eq!(DockerConfig::debug_ws_from_log(&vec![]), Err(ProvisionError::NoDebugUrl));
}

#[test]
fn published_ports_are_read_after_first_colon() {
    assert_eq!(DockerConfig::port_from_mapping_line("9222/tcp -> 0.0.0.0:49153"), Some(49153));
    assert_eq!(DockerConfig::port_from_mapping_line("9222/tcp -> [::]:49153"), None);
    assert_eq!(DockerConfig::port_from_mapping_line("9222/tcp -> 0.0.0.0:70000"), None);
    assert_eq!(DockerConfig::port_from_mapping_line("no colon"), None);
    assert_eq!(DockerConfig::port_from_mapping_line("a:+5"), Some(5));
    assert_eq!(DockerConfig::port_from_mapping_line("a:+"), None);
    assert_eq!(DockerConfig::port_from_mapping_line("a:++5"), None);
    assert_eq!(DockerConfig::port_from_mapping_line("a:5+"), None);
    assert_eq!(DockerConfig::ports_from_output(&strings(&["a:+5", "b:7"])), vec![5, 7]);
    let lines = strings(&["9222/tcp -> 0.0.0.0:49153", "garbage", "9223/tcp -> 0.0.0.0:12451"]);
    assert_eq!(DockerConfig::ports_from_output(&lines), vec![49153, 12451]);
}

#[test]
fn run_arguments_follow_the_configuration() {
    let d = DockerConfig::default();
    assert_eq!(
        d.run_args(),
        strings(&["run", "-P", "--rm", "-d", "--cap-add=SYS_ADMIN", "docker.io/justinribeiro/chrome-headless:latest"])
    );
    let mapped = DockerConfig { additional_flags: vec![], image_path: "img".to_string(), port_mapping: Some("8080:80".to_string()) };
    assert_eq!(mapped.run_args(), strings(&["run", "-p", "8080:80", "img"]));
}

#[test]
fn announced_endpoint_moves_to_localhost() {
    assert_eq!(
        DockerConfig::local_endpoint("ws://0.0.0.0:9222/devtools/browser/tok"),
        Ok(ProxyConfigComponents::new("localhost", None, "tok"))
    );
    assert!(matches!(DockerConfig::local_endpoint("ws://bad"), Err(ProvisionError::MalformedDebugUrl(_))));
}

#[test]
fn refused_ports_each_leave_a_message() {
    let endpoint = ProxyConfigComponents::new("localhost", None, "tok");
    match DockerConfig::connect_to_ports(&endpoint, &vec![1, 2, 3], &mut ConnectorLog::new(ChromeConnector)) {
        Ok(_) => panic!("nothing listens on these ports"),
        Err(f) => {
            assert_eq!(f.len(), 3);
            assert!(f[0].starts_with("port 1: "));
            assert!(f[1].starts_with("port 2: "));
            assert!(f[2].starts_with("port 3: "));
        }
    }
}

#[test]
fn provisioning_reports_every_refused_port() {
    let mut rt = RuntimeLog::new(StubRuntime {
        logs: strings(&["DevTools listening on ws://0.0.0.0:9222/devtools/browser/abc"]),
        ports: strings(&["9222/tcp -> 0.0.0.0:1", "9223/tcp -> 0.0.0.0:2"]),
        calls: vec![],
    });
    match DockerConfig::default().browser(&mut rt, &mut ConnectorLog::new(ChromeConnector)) {
        Err(ProvisionError::PortsExhausted(f)) => {
            assert_eq!(f.len(), 2);
            assert!(f[0].starts_with("port 1: "));
            assert!(f[1].starts_with("port 2: "));
        }
        other => panic!("unexpected outcome: {:?}", other.map(|_| ())),
    }
    let calls = &rt.runtime.calls;
    assert_eq!(calls.len(), 3);
    assert_eq!(calls[1], strings(&["logs", "c0ffee"]));
    assert_eq!(calls[2], strings(&["port", "c0ffee"]));
}

#[test]
fn provisioning_without_announcement_fails() {
    let mut rt = RuntimeLog::new(StubRuntime { logs: strings(&["no url"]), ports: strings(&["9222/tcp -> 0.0.0.0:1"]), calls: vec![] });
    let mut c = ConnectorLog::new(StubConnector { open_ports: vec![":1/"], calls: vec![] });
    assert!(matches!(DockerConfig::default().browser(&mut rt, &mut c), Err(ProvisionError::NoDebugUrl)));
    assert!(c.connector.calls.is_empty());
}

#[test]
fn exhausted_message_lists_each_port() {
    let e = ProvisionError::PortsExhausted(strings(&["port 1: refused", "port 2: refused"]));
    assert_eq!(e.message(), "None of the ports worked:\nport 1: refused\nport 2: refused\n");
}

/// Opens a session on the ports it is told to, counting the calls.
struct StubConnector {
    open_ports: Vec<&'static str>,
    calls: Vec<String>,
}

impl EndpointConnector for StubConnector {
    type Session = String;

    fn connect(&mut self, url: &String) -> Result<String, String> {
        self.calls.push(url.clone());
        if self.open_ports.iter().any(|p| url.contains(p)) {
            Ok(format!("session at {url}"))
        } else {
            Err("connection refused".to_string())
        }
    }
}

#[test]
fn first_working_port_stops_the_probe() {
    let endpoint = ProxyConfigComponents::new("localhost", None, "tok");
    let mut c = ConnectorLog::new(StubConnector { open_ports: vec![":9001/", ":9002/"], calls: vec![] });
    let r = DockerConfig::connect_to_ports(&endpoint, &vec![9001, 9002, 9003], &mut c);
    assert_eq!(r, Ok(("session at ws://localhost:9001/devtools/browser/tok".to_string(), 0)));
    assert_eq!(c.connector.calls, strings(&["ws://localhost:9001/devtools/browser/tok"]));
}

#[test]
fn later_port_is_used_when_earlier_ones_fail() {
    let endpoint = ProxyConfigComponents::new("localhost", None, "tok");
    let mut c = ConnectorLog::new(StubConnector { open_ports: vec![":9002/"], calls: vec![] });
    let r = DockerConfig::connect_to_ports(&endpoint, &vec![9001, 9002, 9003], &mut c);
    assert_eq!(r, Ok(("session at ws://localhost:9002/devtools/browser/tok".to_string(), 1)));
    assert_eq!(c.connector.calls.len(), 2);
}

#[test]
fn every_port_failing_is_reported_per_port() {
    let endpoint = ProxyConfigComponents::new("localhost", None, "tok");
    let mut c = ConnectorLog::new(StubConnector { open_ports: vec![], calls: vec![] });
    let r = DockerConfig::connect_to_ports(&endpoint, &vec![9001, 9002], &mut c);
    assert_eq!(
        r,
        Err(strings(&["port 9001: connection refused", "port 9002: connection refused"]))
    );
    assert_eq!(c.connector.calls.len(), 2);
    let mut d = ConnectorLog::new(StubConnector { open_ports: vec![], calls: vec![] });
    assert_eq!(DockerConfig::connect_to_ports(&endpoint, &vec![], &mut d), Err(vec![]));
    assert!(d.connector.calls.is_empty());
}

#[test]
fn provisioning_stops_at_first_working_port() {
    let mut rt = RuntimeLog::new(StubRuntime {
        logs: strings(&["DevTools listening on ws://0.0.0.0:9222/devtools/browser/abc"]),
        ports: strings(&["9222/tcp -> 0.0.0.0:5001", "9223/tcp -> 0.0.0.0:5002"]),
        calls: vec![],
    });
    let mut c = ConnectorLog::new(StubConnector { open_ports: vec![":5001/", ":5002/"], calls: vec![] });
    let r = DockerConfig::default().browser(&mut rt, &mut c);
    assert_eq!(r, Ok("session at ws://localhost:5001/devtools/browser/abc".to_string()));
    assert_eq!(c.connector.calls, strings(&["ws://localhost:5001/devtools/browser/abc"]));
}

#[test]
fn provisioning_falls_through_to_a_later_port() {
    let mut rt = RuntimeLog::new(StubRuntime {
        logs: strings(&["ws://10.0.0.2:9222/devtools/browser/abc"]),
        ports: strings(&["9222/tcp -> 0.0.0.0:5001", "9223/tcp -> 0.0.0.0:5002"]),
        calls: vec![],
    });
    let mut c = ConnectorLog::new(StubConnector { open_ports: vec![":5002/"], calls: vec![] });
    let r = DockerConfig::default().browser(&mut rt, &mut c);
    assert_eq!(r, Ok("session at ws://localhost:5002/devtools/browser/abc".to_string()));
    assert_eq!(c.connector.calls.len(), 2);
}

#[test]
fn provisioning_with_no_published_port_tries_nothing() {
    let mut rt = RuntimeLog::new(StubRuntime {
        logs: strings(&["ws://h:1/devtools/browser/abc"]),
        ports: strings(&["garbage"]),
        calls: vec![],
    });
    let mut c = ConnectorLog::new(StubConnector { open_ports: vec![], calls: vec![] });
    assert_eq!(DockerConfig::default().browser(&mut rt, &mut c), Err(ProvisionError::PortsExhausted(vec![])));
    assert!(c.connector.calls.is_empty());
}

/// Prints nothing when asked to start a container.
struct SilentRuntime;

impl ContainerRuntime for SilentRuntime {
    fn run(&mut self, _args: &Vec<String>) -> Result<Vec<String>, String> {
        Ok(vec![])
    }
}

/// Fails every call.
struct BrokenRuntime;

impl ContainerRuntime for BrokenRuntime {
    fn run(&mut self, _args: &Vec<String>) -> Result<Vec<String>, String> {
        Err("docker: not found".to_string())
    }
}

#[test]
fn provisioning_without_container_id_or_tool_fails() {
    let mut c = ConnectorLog::new(StubConnector { open_ports: vec![], calls: vec![] });
    assert_eq!(
        DockerConfig::default().browser(&mut RuntimeLog::new(SilentRuntime), &mut c),
        Err(ProvisionError::NoContainerId)
    );
    assert_eq!(
        DockerConfig::default().browser(&mut RuntimeLog::new(BrokenRuntime), &mut c),
        Err(ProvisionError::Runtime("docker: not found".to_string()))
    );
    assert!(c.connector.calls.is_empty());
}

#[test]
fn malformed_announcement_fails_without_connecting() {
    let mut rt = RuntimeLog::new(StubRuntime {
        logs: strings(&["ws://h:99999/devtools/browser/t"]),
        ports: strings(&["9222/tcp -> 0.0.0.0:1"]),
        calls: vec![],
    });
    let mut c = ConnectorLog::new(StubConnector { open_ports: vec![":1/"], calls: vec![] });
    assert!(matches!(DockerConfig::default().browser(&mut rt, &mut c), Err(ProvisionError::MalformedDebugUrl(_))));
    assert!(c.connector.calls.is_empty());
}

/// Starts a container and prints a log, but cannot list its ports.
struct NoPortsRuntime {
    logs: Vec<String>,
    calls: usize,
}

impl ContainerRuntime for NoPortsRuntime {
    fn run(&mut self, args: &Vec<String>) -> Result<Vec<String>, String> {
        self.calls += 1;
        match args[0].as_str() {
            "run" => Ok(strings(&["c0ffee"])),
            "logs" => Ok(self.logs.clone()),
            _ => Err("port listing failed".to_string()),
        }
    }
}

#[test]
fn log_is_scanned_before_ports_are_asked_for() {
    let mut rt = RuntimeLog::new(NoPortsRuntime { logs: strings(&["no url here"]), calls: 0 });
    let mut c = ConnectorLog::new(StubConnector { open_ports: vec![], calls: vec![] });
    assert_eq!(DockerConfig::default().browser(&mut rt, &mut c), Err(ProvisionError::NoDebugUrl));
    assert_eq!(rt.runtime.calls, 2);
    let mut rt2 = RuntimeLog::new(NoPortsRuntime { logs: strings(&["ws://h/devtools/browser/t"]), calls: 0 });
    assert_eq!(
        DockerConfig::default().browser(&mut rt2, &mut c),
        Err(ProvisionError::Runtime("port listing failed".to_string()))
    );
    assert_eq!(rt2.runtime.calls, 3);
    assert!(c.connector.calls.is_empty());
}
