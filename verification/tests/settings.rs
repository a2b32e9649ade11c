use rustle::i18n::{t, Key, Language, Locale, Translations};
use rustle::settings::{MusicQuality, NetworkSettings, PlayMode, ProxyType};

fn net(proxy_type: ProxyType, host: &str, port: u16, user: Option<&str>, pass: Option<&str>) -> NetworkSettings {
    NetworkSettings {
        proxy_type,
        proxy_host: host.to_string(),
        proxy_port: port,
        proxy_username: user.map(|s| s.to_string()),
        proxy_password: pass.map(|s| s.to_string()),
    }
}

#[test]
fn proxy_urls() {
    assert_eq!(NetworkSettings::default().proxy_url(Some("http://sys:1".to_string())), None);
    assert_eq!(
        net(ProxyType::Http, "127.0.0.1", 8080, None, None).proxy_url(None),
        Some("http://127.0.0.1:8080".to_string())
    );
    assert_eq!(
        net(ProxyType::Socks5, "proxy", 1080, Some("u"), Some("p")).proxy_url(None),
        Some("socks5://u:p@proxy:1080".to_string())
    );
    assert_eq!(
        net(ProxyType::Https, "proxy", 443, Some("u"), None).proxy_url(None),
        Some("https://u@proxy:443".to_string())
    );
    assert_eq!(net(ProxyType::Https, "proxy", 443, Some(""), Some("p")).proxy_url(None), Some("https://proxy:443".to_string()));
    assert_eq!(net(ProxyType::Http, "", 8080, None, None).proxy_url(None), None);
    assert_eq!(net(ProxyType::Http, "h", 0, None, None).proxy_url(None), None);
    assert_eq!(
        net(ProxyType::System, "", 0, None, None).proxy_url(Some("http://sys:3128".to_string())),
        Some("http://sys:3128".to_string())
    );
    assert_eq!(net(ProxyType::System, "", 0, None, None).proxy_url(None), None);
}

#[test]
fn play_mode_cycles_through_all_four() {
    let start = PlayMode::default();
    assert_eq!(start, PlayMode::Sequential);
    assert_eq!(start.next(), PlayMode::LoopAll);
    assert_eq!(start.next().next(), PlayMode::LoopOne);
    assert_eq!(start.next().next().next(), PlayMode::Shuffle);
    assert_eq!(start.next().next().next().next(), start);
    assert_eq!(PlayMode::LoopOne.display_name(), "单曲循环");
}

#[test]
fn quality_rates_and_names() {
    let all = MusicQuality::all();
    assert_eq!(all.len(), 5);
    let rates: Vec<u32> = all.iter().map(|q| q.to_api_rate()).collect();
    assert_eq!(rates, vec![0, 1, 2, 3, 4]);
    assert_eq!(ProxyType::NoProxy.to_string(), "无代理");
}

#[test]
fn languages() {
    assert_eq!(Language::English.code(), "en");
    assert_eq!(Language::Chinese.code(), "zh");
    assert_eq!(Language::Chinese.display_name(), "中文");
    assert_eq!(Language::all().len(), 2);
}

#[test]
fn translations_fall_back_to_question_marks() {
    let tables = Translations {
        english: vec![(Key::AppName, "Rustle"), (Key::NavHome, "Home")],
        chinese: vec![(Key::NavHome, "首页")],
    };
    assert_eq!(t(&tables, Language::English, Key::NavHome), "Home");
    assert_eq!(t(&tables, Language::Chinese, Key::NavHome), "首页");
    assert_eq!(t(&tables, Language::Chinese, Key::AppName), "???");
    assert_eq!(Locale::new(Language::English).get(&tables, Key::AppName), "Rustle");
}
