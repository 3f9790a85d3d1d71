use webrtc_demo_server::agent::simplify_user_agent;
use webrtc_demo_server::agent::simplify_with;
use webrtc_demo_server::agent::summarize;
use webrtc_demo_server::agent::AgentInfo;

const CHROME_ON_WINDOWS: &str = "Mozilla/5.0 (Windows NT 10.0; Win64; x64) AppleWebKit/537.36 \
    (KHTML, like Gecko) Chrome/91.0.4472.124 Safari/537.36";

const FIREFOX_ON_LINUX: &str = "Mozilla/5.0 (X11; Linux x86_64; rv:60.0) Gecko/20100101 Firefox/60.0";

fn chrome() -> AgentInfo {
    AgentInfo {
        vendor: "Google".to_string(),
        name: "Chrome".to_string(),
        version: "91.0.4472.124".to_string(),
        os: "Windows 10".to_string(),
        os_version: "NT 10.0".to_string(),
    }
}

fn by_woothee(agent: &str) -> Option<String> {
    woothee::parser::Parser::new()
        .parse(agent)
        .map(|ua| format!("{} {} {}\n{} {}", ua.vendor, ua.name, ua.version, ua.os, ua.os_version))
}

#[test]
fn summarize_writes_two_lines() {
    assert_eq!(summarize(&chrome()), "Google Chrome 91.0.4472.124\nWindows 10 NT 10.0");
}

#[test]
fn summarize_keeps_empty_fields() {
    let info = AgentInfo {
        vendor: String::new(),
        name: "n".to_string(),
        version: String::new(),
        os: String::new(),
        os_version: "v".to_string(),
    };
    assert_eq!(summarize(&info), " n \n v");
}

#[test]
fn simplify_with_a_finding_gives_its_summary() {
    assert_eq!(
        simplify_with("anything".to_string(), Some(chrome())),
        "Google Chrome 91.0.4472.124\nWindows 10 NT 10.0"
    );
}

#[test]
fn simplify_with_no_finding_keeps_the_string() {
    assert_eq!(simplify_with("curl-ish thing".to_string(), None), "curl-ish thing");
    assert_eq!(simplify_with(String::new(), None), "");
}

#[test]
fn simplify_user_agent_sums_up_a_browser() {
    assert_eq!(
        simplify_user_agent(CHROME_ON_WINDOWS.to_string()),
        "Google Chrome 91.0.4472.124\nWindows 10 NT 10.0"
    );
    assert_eq!(simplify_user_agent(FIREFOX_ON_LINUX.to_string()), "Mozilla Firefox 60.0\nLinux UNKNOWN");
}

#[test]
fn simplify_user_agent_keeps_what_the_parser_does_not_know() {
    let agent = "xyzzy plugh";
    assert!(woothee::parser::Parser::new().parse(agent).is_none());
    assert_eq!(simplify_user_agent(agent.to_string()), agent);
}

#[test]
fn simplify_user_agent_follows_the_parser() {
    let agents = [
        CHROME_ON_WINDOWS,
        FIREFOX_ON_LINUX,
        "",
        "-",
        "xyzzy plugh",
        "Googlebot/2.1 (+http://www.google.com/bot.html)",
        "Mozilla/5.0 (iPhone; CPU iPhone OS 14_6 like Mac OS X) AppleWebKit/605.1.15 \
         (KHTML, like Gecko) Version/14.1.1 Mobile/15E148 Safari/604.1",
        "curl/7.68.0",
    ];
    for agent in agents.iter() {
        let expected = by_woothee(agent).unwrap_or(agent.to_string());
        assert_eq!(simplify_user_agent(agent.to_string()), expected);
    }
}
