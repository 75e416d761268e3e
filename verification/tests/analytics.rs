use shors::analytics::{AnalyticResults, Analytics};
use shors::shortener::Shortener;

const PC_UA: &str = "Mozilla/4.0 (compatible; MSIE 6.0; Windows NT 5.0; InfoPath.1)";
const PHONE_UA: &str = "Mozilla/5.0 (iPhone; CPU iPhone OS 5_0_1 like Mac OS X) AppleWebKit/534.46 (KHTML, like Gecko) Version/5.1 Mobile/9A405 Safari/7534.48.3";

fn event(id: &str, ua: Option<&str>) -> Analytics {
    let mut headers = vec![("Host".to_string(), "sho.rs".to_string())];
    if let Some(ua) = ua {
        headers.push(("User-Agent".to_string(), ua.to_string()));
    }
    Analytics::new(id.to_string(), headers, "127.0.0.1:40000".to_string())
}

#[test]
fn aggregate_with_zero_events_is_all_zero() {
    let s = Shortener::new();
    let r = s.get_analytics("ab12".to_string());
    assert_eq!(r.count, 0);
    assert_eq!(r.devices.len(), 0);
    assert_eq!(r.client_os.len(), 0);
}

#[test]
fn aggregate_three_events_rolls_up_categories() {
    let mut s = Shortener::new();
    for ua in [PC_UA, PC_UA, PHONE_UA] {
        s.process_analytics(event("ab12", Some(ua)));
    }
    let r = s.get_analytics("ab12".to_string());
    assert_eq!(r.count, 3);
    assert_eq!(r.devices.get(&"pc".to_string()), Some(2));
    assert_eq!(r.devices.get(&"smartphone".to_string()), Some(1));
    assert_eq!(r.devices.len(), 2);
    assert_eq!(r.client_os.get(&"Windows 2000".to_string()), Some(2));
    assert_eq!(r.client_os.get(&"iPhone".to_string()), Some(1));
    assert_eq!(r.client_os.len(), 2);

    let mut seen = Vec::new();
    for i in 0..r.devices.len() {
        let p = r.devices.pair_at(i);
        seen.push((p.0.clone(), p.1));
    }
    seen.sort();
    assert_eq!(
        seen,
        vec![("pc".to_string(), 2), ("smartphone".to_string(), 1)]
    );
}

#[test]
fn aggregate_counts_only_the_requested_id() {
    let mut s = Shortener::new();
    s.process_analytics(event("ab12", Some(PC_UA)));
    s.process_analytics(event("zz99", Some(PHONE_UA)));
    let r = s.get_analytics("ab12".to_string());
    assert_eq!(r.count, 1);
    assert_eq!(r.devices.get(&"pc".to_string()), Some(1));
    assert_eq!(r.devices.get(&"smartphone".to_string()), None);
    let other = s.get_analytics("zz99".to_string());
    assert_eq!(other.count, 1);
    assert_eq!(other.devices.get(&"smartphone".to_string()), Some(1));
}

#[test]
fn event_without_user_agent_counts_but_classifies_nothing() {
    let mut s = Shortener::new();
    s.process_analytics(event("ab12", None));
    s.process_analytics(event("ab12", Some(PC_UA)));
    let r = s.get_analytics("ab12".to_string());
    assert_eq!(r.count, 2);
    assert_eq!(r.devices.len(), 1);
    assert_eq!(r.devices.get(&"pc".to_string()), Some(1));
}

#[test]
fn new_event_keeps_what_it_was_given() {
    let e = event("ab12", Some(PC_UA));
    assert_eq!(e.id, "ab12".to_string());
    assert_eq!(e.ip, "127.0.0.1:40000".to_string());
    assert_eq!(e.headers.len(), 2);
    assert_eq!(e.headers[1].1, PC_UA.to_string());
}

#[test]
fn empty_results_start_at_zero() {
    let r = AnalyticResults::new();
    assert_eq!(r.count, 0);
    assert_eq!(r.devices.len(), 0);
    assert_eq!(r.client_os.len(), 0);
    assert_eq!(r.devices.get(&"pc".to_string()), None);
}
