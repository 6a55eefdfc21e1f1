use cli_music_player::browser::BrowserType;
use cli_music_player::scraper::{
    links_from_hrefs, search_url, attribute_value, ProvideSearch, SearchProviders, SearchQuery, SelfSetup,
    YoutubeScraper, NoContainerRuntime, BackendOpener, OpenerLog,
};
use cli_music_player::browser::{ChromeConfig, ChromeOpener};

fn prefer_proxy() -> YoutubeScraper {
    YoutubeScraper::new(vec![
        BrowserType::proxy("ws://localhost:9222/devtools/browser/019f2fed-ad55-4c34-9ff1-9a61d01011a0"),
        BrowserType::default(),
    ])
}

#[test]
fn search_provider_init() {
    let sp: SearchProviders = prefer_proxy().into();
    let result = sp.search(SearchQuery { keywords: vec![] });
    // since we put no keyword, the provider may refuse the search.
    println!("Result: {result:?}")
}

fn split_to_vec(s: &str) -> Vec<String> {
    s.split(" ").map(|x| x.to_string()).collect::<Vec<_>>()
}

#[test]
fn empty_query_gives_bare_results_address() {
    let q = SearchQuery { keywords: vec![] };
    assert_eq!(search_url(&q), "https://www.youtube.com/results?search_query=");
}

#[test]
fn keywords_are_joined_by_plus() {
    let q = SearchQuery { keywords: split_to_vec("ortopilot insomnia") };
    assert_eq!(search_url(&q), "https://www.youtube.com/results?search_query=ortopilot+insomnia");
    let one = SearchQuery { keywords: vec!["solo".to_string()] };
    assert_eq!(search_url(&one), "https://www.youtube.com/results?search_query=solo");
}

#[test]
fn links_are_prefixed_with_origin_in_order() {
    let hrefs = vec![Some("/watch?v=a1".to_string()), None, Some("/watch?v=b2".to_string())];
    assert_eq!(
        links_from_hrefs(&hrefs),
        vec!["https://www.youtube.com/watch?v=a1".to_string(), "https://www.youtube.com/watch?v=b2".to_string()]
    );
    assert!(links_from_hrefs(&vec![]).is_empty());
}

#[test]
fn href_attribute_is_found_by_name() {
    let attrs = vec![
        ("id".to_string(), "video-title".to_string()),
        ("href".to_string(), "/watch?v=ldi3geT3uzw".to_string()),
    ];
    assert_eq!(attribute_value(&attrs, &"href".to_string()), Some("/watch?v=ldi3geT3uzw".to_string()));
    assert_eq!(attribute_value(&attrs, &"title".to_string()), None);
}

#[test]
fn empty_query_with_unreachable_backends_is_an_error() {
    let scraper = YoutubeScraper::new(vec![BrowserType::proxy("ws://127.0.0.1:1/devtools/browser/tok")]);
    let result = scraper.search_with(&SearchQuery { keywords: vec![] }, &mut OpenerLog::new(ChromeOpener::new(NoContainerRuntime)));
    assert!(result.is_err());
}

#[test]
fn every_failing_backend_leaves_a_message() {
    let scraper = YoutubeScraper::new(vec![
        BrowserType::proxy("ws://127.0.0.1:1/devtools/browser/a"),
        BrowserType::proxy("ws://127.0.0.1:2/devtools/browser/b"),
    ]);
    match scraper.first_browser(&mut OpenerLog::new(ChromeOpener::new(NoContainerRuntime))) {
        Ok(_) => panic!("nothing listens on these ports"),
        Err(f) => assert_eq!(f.len(), 2),
    }
}

#[test]
fn scraper_setup_succeeds() {
    assert_eq!(YoutubeScraper::default().setup(), Ok(()));
    let sp: SearchProviders = YoutubeScraper::default().into();
    assert_eq!(sp.setup(), Ok(()));
}

/// Fails for proxied backends and opens every other one, counting the calls.
struct StubOpener {
    calls: Vec<BrowserType>,
}

impl BackendOpener for StubOpener {
    type Session = String;

    fn open(&mut self, backend: &BrowserType) -> Result<String, String> {
        self.calls.push(backend.clone());
        match backend {
            BrowserType::Proxy(_) => Err("refused".to_string()),
            _ => Ok("session".to_string()),
        }
    }
}

#[test]
fn failing_first_backend_falls_back_to_second() {
    let a = BrowserType::proxy("ws://127.0.0.1:1/devtools/browser/a");
    let b = BrowserType::local(ChromeConfig::default());
    let scraper = YoutubeScraper::new(vec![a.clone(), b.clone()]);
    let mut opener = OpenerLog::new(StubOpener { calls: vec![] });
    assert_eq!(scraper.first_browser(&mut opener), Ok(("session".to_string(), 1)));
    assert_eq!(opener.opener.calls, vec![a, b]);
}

#[test]
fn working_first_backend_is_the_only_one_tried() {
    let b = BrowserType::local(ChromeConfig::default());
    let scraper = YoutubeScraper::new(vec![b.clone(), BrowserType::proxy("ws://h/devtools/browser/t")]);
    let mut opener = OpenerLog::new(StubOpener { calls: vec![] });
    assert_eq!(scraper.first_browser(&mut opener), Ok(("session".to_string(), 0)));
    assert_eq!(opener.opener.calls, vec![b]);
}

#[test]
fn all_backends_failing_gives_one_message_each() {
    let scraper = YoutubeScraper::new(vec![
        BrowserType::proxy("ws://h/devtools/browser/a"),
        BrowserType::proxy("ws://h/devtools/browser/b"),
    ]);
    let mut opener = OpenerLog::new(StubOpener { calls: vec![] });
    assert_eq!(scraper.first_browser(&mut opener), Err(vec!["refused".to_string(), "refused".to_string()]));
    assert_eq!(opener.opener.calls.len(), 2);
    let none = YoutubeScraper::new(vec![]);
    assert_eq!(none.first_browser(&mut opener), Err(vec![]));
}

#[test]
fn search_without_backends_fails() {
    let scraper = YoutubeScraper::new(vec![]);
    let r = scraper.search_with(&SearchQuery { keywords: vec![] }, &mut OpenerLog::new(ChromeOpener::new(NoContainerRuntime)));
    assert_eq!(r, Err("no browser backend worked:\n".to_string()));
}

#[test]
fn search_reports_each_failed_backend() {
    let scraper = YoutubeScraper::new(vec![
        BrowserType::proxy("ws://h/devtools/browser/a"),
        BrowserType::proxy("ws://h/devtools/browser/b"),
    ]);
    let r = scraper.search_with(&SearchQuery { keywords: vec![] }, &mut OpenerLog::new(StubBrowserOpener));
    assert_eq!(r, Err("no browser backend worked:\nrefused\nrefused\n".to_string()));
}

/// Fails every backend; its sessions would be headless_chrome's.
struct StubBrowserOpener;

impl BackendOpener for StubBrowserOpener {
    type Session = headless_chrome::Browser;

    fn open(&mut self, _backend: &BrowserType) -> Result<headless_chrome::Browser, String> {
        Err("refused".to_string())
    }
}
