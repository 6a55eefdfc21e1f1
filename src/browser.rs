//! Browser sessions: the three ways of obtaining one, and the calls into headless_chrome.
use vstd::prelude::*;
use std::sync::Arc;
use headless_chrome::{Browser, Element, LaunchOptionsBuilder, Tab};
use crate::docker::{outcome_of, ConnectorLog, ContainerRuntime, DockerConfig, EndpointConnector, RuntimeLog};
use crate::endpoint::ProxyConfig;

verus! {

#[verifier::external_type_specification]
#[verifier::external_body]
pub struct ExBrowser(Browser);

#[verifier::external_type_specification]
#[verifier::external_body]
pub struct ExTab(Tab);

#[verifier::external_type_specification]
#[verifier::external_body]
pub struct ExElement<'a>(Element<'a>);

/// Relies on headless_chrome::Browser::connect: opens a session on the debug endpoint at `url`.
/// Whether it succeeds depends on the browser behind the endpoint, so nothing is promised.
#[verifier::external_body]
pub(crate) fn connect_browser(url: &String) -> (r: Result<Browser, String>) {
    Browser::connect(url.clone()).map_err(|e| e.to_string())
}

/// Relies on headless_chrome::Browser::new, handed the options that
/// LaunchOptionsBuilder::build makes of the configuration's fields (the options type is
/// private to headless_chrome, so the two calls stand together). Whether a browser starts
/// depends on the machine, so nothing is promised.
#[verifier::external_body]
pub(crate) fn launch_browser(config: &ChromeConfig) -> (r: Result<Browser, String>) {
    LaunchOptionsBuilder::default()
        .headless(config.headless)
        .sandbox(config.sandbox)
        .window_size(config.window_size)
        .port(config.port)
        .path(config.path.clone().map(std::path::PathBuf::from))
        .idle_browser_timeout(std::time::Duration::from_secs(config.idle_browser_secs))
        .build()
        .and_then(|options| Browser::new(options).map_err(|e| e.to_string()))
}

/// Relies on headless_chrome::Browser::wait_for_initial_tab: the first tab of the session.
#[verifier::external_body]
pub(crate) fn initial_tab(browser: &Browser) -> (r: Result<Arc<Tab>, String>) {
    browser.wait_for_initial_tab().map_err(|e| e.to_string())
}

/// Relies on headless_chrome::Tab::navigate_to: sends the tab to `url`.
#[verifier::external_body]
pub(crate) fn navigate(tab: &Tab, url: &String) -> (r: Result<(), String>) {
    tab.navigate_to(url.as_str()).map(|_| ()).map_err(|e| e.to_string())
}

/// Relies on headless_chrome::Tab::wait_for_elements: the elements that match `selector`,
/// once at least one is on the page.
#[verifier::external_body]
pub(crate) fn wait_for_elements<'a>(tab: &'a Tab, selector: &str) -> (r: Result<Vec<Element<'a>>, String>) {
    tab.wait_for_elements(selector).map_err(|e| e.to_string())
}

/// Relies on headless_chrome::Element::get_attributes: the element's attributes as
/// name and value pairs (names unique, in no particular order), or nothing where the
/// element has none.
#[verifier::external_body]
pub(crate) fn element_attributes(element: &Element) -> (r: Result<Option<Vec<(String, String)>>, String>) {
    element
        .get_attributes()
        .map(|attrs| attrs.map(|m| m.into_iter().collect()))
        .map_err(|e| e.to_string())
}

/// Opens sessions with headless_chrome.
pub struct ChromeConnector;

impl EndpointConnector for ChromeConnector {
    type Session = Browser;

    fn connect(&mut self, url: &String) -> Result<Browser, String> {
        connect_browser(url)
    }
}

/// Opens a session for each backend with headless_chrome, starting containers with
/// `runtime`.
pub struct ChromeOpener<R: ContainerRuntime> {
    pub runtime: RuntimeLog<R>,
}

impl<R: ContainerRuntime> ChromeOpener<R> {
    pub fn new(runtime: R) -> (r: Self)
        ensures
            r.runtime.runtime == runtime,
    {
        ChromeOpener { runtime: RuntimeLog::new(runtime) }
    }
}

impl<R: ContainerRuntime> crate::scraper::BackendOpener for ChromeOpener<R> {
    type Session = Browser;

    fn open(&mut self, backend: &BrowserType) -> Result<Browser, String> {
        ConnectBrowserTrait::browser(backend, &mut self.runtime)
    }
}

impl ProxyConfig {
    /// Opens one session, on this configuration's endpoint.
    pub fn connect_with<C: EndpointConnector>(&self, connector: &mut ConnectorLog<C>) -> (r: Result<C::Session, String>)
        ensures
            final(connector).attempts@ == old(connector).attempts@.push((self@, outcome_of(r))),
    {
        connector.connect(self.debug_ws_url())
    }
}

/// The options of a browser launched by this process.
#[derive(Debug, Clone, PartialEq)]
pub struct ChromeConfig {
    /// Run without a window.
    pub headless: bool,
    /// Run the browser in its sandbox.
    pub sandbox: bool,
    /// Width and height of the window, where one is asked for.
    pub window_size: Option<(u32, u32)>,
    /// The debugging port, where a fixed one is asked for.
    pub port: Option<u16>,
    /// The browser's executable, where it is not to be looked up.
    pub path: Option<String>,
    /// Seconds that the session is kept without any event from the browser.
    pub idle_browser_secs: u64,
}

impl ChromeConfig {
    /// Headless, sandboxed, any port and window, the executable looked up, 30 idle seconds.
    pub open spec fn is_default(&self) -> bool {
        &&& self.headless
        &&& self.sandbox
        &&& self.window_size is None
        &&& self.port is None
        &&& self.path is None
        &&& self.idle_browser_secs == 30
    }
}

impl Default for ChromeConfig {
    fn default() -> (r: Self)
        ensures
            r.is_default(),
    {
        ChromeConfig {
            headless: true,
            sandbox: true,
            window_size: None,
            port: None,
            path: None,
            idle_browser_secs: 30,
        }
    }
}

/// Represents the way we could connect to a [Browser].
#[derive(Debug, Clone, PartialEq)]
pub enum BrowserType {
    /// A browser that is already running, reached through its debug endpoint.
    Proxy(ProxyConfig),
    /// A browser in a container that is started for the session.
    Docker(DockerConfig),
    /// A browser launched by this process.
    Local(ChromeConfig),
}

impl BrowserType {
    /// A proxied browser at `proxy_url`, which must be a debug-endpoint URL.
    pub fn proxy(proxy_url: &str) -> (r: BrowserType)
        requires
            crate::endpoint::is_endpoint_url(proxy_url@),
        ensures
            r matches BrowserType::Proxy(c) && c@ == proxy_url@,
    {
        match ProxyConfig::new(proxy_url) {
            Ok(c) => BrowserType::Proxy(c),
            Err(_) => {
                assert(false);
                BrowserType::Local(ChromeConfig::default())
            },
        }
    }

    pub fn docker(config: DockerConfig) -> (r: BrowserType)
        ensures
            r == BrowserType::Docker(config),
    {
        BrowserType::Docker(config)
    }

    pub fn local(config: ChromeConfig) -> (r: BrowserType)
        ensures
            r == BrowserType::Local(config),
    {
        BrowserType::Local(config)
    }

}

/// A configuration that can produce a browser session. The container runtime is used by
/// configurations that start a container alone.
pub trait ConnectBrowserTrait {
    fn browser<R: ContainerRuntime>(&self, runtime: &mut RuntimeLog<R>) -> Result<Browser, String>;
}

impl ConnectBrowserTrait for ProxyConfig {
    fn browser<R: ContainerRuntime>(&self, _runtime: &mut RuntimeLog<R>) -> Result<Browser, String> {
        let mut connector = ConnectorLog::new(ChromeConnector);
        self.connect_with(&mut connector)
    }
}

impl ConnectBrowserTrait for ChromeConfig {
    fn browser<R: ContainerRuntime>(&self, _runtime: &mut RuntimeLog<R>) -> Result<Browser, String> {
        launch_browser(self)
    }
}

impl ConnectBrowserTrait for DockerConfig {
    fn browser<R: ContainerRuntime>(&self, runtime: &mut RuntimeLog<R>) -> Result<Browser, String> {
        let mut connector = ConnectorLog::new(ChromeConnector);
        match DockerConfig::browser(self, runtime, &mut connector) {
            Ok(b) => Ok(b),
            Err(e) => Err(e.message()),
        }
    }
}

impl ConnectBrowserTrait for BrowserType {
    /// Obtains a browser session in the way this value names.
    fn browser<R: ContainerRuntime>(&self, runtime: &mut RuntimeLog<R>) -> Result<Browser, String> {
        match self {
            BrowserType::Proxy(c) => ConnectBrowserTrait::browser(c, runtime),
            BrowserType::Docker(c) => ConnectBrowserTrait::browser(c, runtime),
            BrowserType::Local(c) => ConnectBrowserTrait::browser(c, runtime),
        }
    }
}

impl Default for BrowserType {
    fn default() -> (r: Self)
        ensures
            r matches BrowserType::Local(c) && c.is_default(),
    {
        BrowserType::Local(ChromeConfig::default())
    }
}

} // verus!
