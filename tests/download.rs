use cli_music_player::browser::{BrowserType, ChromeConfig};
use cli_music_player::download::{DownloadConfigForward, DownloadConfigFromURI};

#[test]
fn download_dir_falls_back_to_default() {
    let a = DownloadConfigFromURI::new("/music".to_string(), true, "/data".to_string());
    assert_eq!(a.local_path(), "/music");
    let b = DownloadConfigFromURI::new("/missing".to_string(), false, "/data".to_string());
    assert_eq!(b.local_path(), "/data");
    let c = DownloadConfigFromURI::from_str("/music", true, "/data".to_string()).unwrap();
    assert_eq!(c.generate("https://x/y").uri, "https://x/y");
    assert_eq!(c.generate("https://x/y").local_path, "/music");
    assert_eq!(DownloadConfigForward::new(), DownloadConfigForward::default());
}

#[test]
fn default_local_browser_options() {
    let c = ChromeConfig::default();
    assert!(c.headless && c.sandbox);
    assert_eq!(c.idle_browser_secs, 30);
    assert_eq!(BrowserType::default(), BrowserType::local(ChromeConfig::default()));
}
