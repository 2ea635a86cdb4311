use ztunnel::ids::{gen_request_id, gen_subdomain, gen_subdomain_short};
use ztunnel::registry::{Registry, MAX_ALLOCATION_TRIES};
use ztunnel::router::SubdomainRouter;

#[test]
fn names_made_from_the_clock() {
    assert_eq!(gen_subdomain(0), "t0");
    assert_eq!(gen_subdomain(0xABCDEF), "tabcdef");
    assert_eq!(gen_subdomain(0xFFFFFF), "t0");
    assert_eq!(gen_subdomain(0x1_000_000), "t1");
    assert_eq!(gen_subdomain_short(0xFFE), "ffe");
    assert_eq!(gen_subdomain_short(0xFFF), "0");
    assert_eq!(gen_subdomain_short(u128::MAX), format!("{:x}", u128::MAX % 0xFFF));
    assert_eq!(gen_request_id(0x1f, 0), "r1f-0");
    assert_eq!(gen_request_id(u128::MAX, u64::MAX), format!("r{:x}-{:x}", u128::MAX, u64::MAX));
}

#[test]
fn the_registry_holds_each_name_once() {
    let mut r: Registry<u32> = Registry::new();
    assert_eq!(r.len(), 0);
    assert_eq!(r.insert_if_absent("app".into(), 1), Ok(()));
    assert_eq!(r.insert_if_absent("app".into(), 2), Err(2));
    assert_eq!(r.insert_if_absent("App".into(), 3), Ok(()));
    assert_eq!(r.len(), 2);
    assert_eq!(r.get("app"), Some(&1));
    assert_eq!(r.get("App"), Some(&3));
    assert_eq!(r.get("other"), None);
    assert!(r.contains("app"));
    assert_eq!(r.remove("app"), Some(1));
    assert_eq!(r.remove("app"), None);
    assert!(!r.contains("app"));
    assert_eq!(r.len(), 1);
    assert_eq!(r.set("App".into(), 4), Some(3));
    assert_eq!(r.set("new".into(), 5), None);
    assert_eq!(r.get("App"), Some(&4));
    assert_eq!(r.len(), 2);
}

#[test]
fn a_free_subdomain_is_given_out_as_it_is() {
    let r: Registry<u32> = Registry::new();
    let a = r.allocate(Some("app"), 1, 2).unwrap();
    assert_eq!(a.subdomain, "app");
    assert!(!a.reassigned);
}

#[test]
fn no_subdomain_or_the_empty_one_gets_a_generated_one() {
    let r: Registry<u32> = Registry::new();
    let a = r.allocate(None, 0x1234, 0).unwrap();
    assert_eq!(a.subdomain, "t1234");
    assert!(!a.reassigned);
    let a = r.allocate(Some(""), 0x1234, 0).unwrap();
    assert_eq!(a.subdomain, "t1234");
}

#[test]
fn a_taken_subdomain_gets_a_suffix() {
    let mut r: Registry<u32> = Registry::new();
    r.insert_if_absent("app".into(), 1).unwrap();
    let a = r.allocate(Some("app"), 0, 0xabc).unwrap();
    assert_eq!(a.subdomain, "app-abc");
    assert!(a.reassigned);
    r.insert_if_absent("app-abc".into(), 2).unwrap();
    r.insert_if_absent("app-abd".into(), 3).unwrap();
    let a = r.allocate(Some("app"), 0, 0xabc).unwrap();
    assert_eq!(a.subdomain, "app-abe");
    let suffix = &a.subdomain["app-".len()..];
    assert!(!suffix.is_empty() && suffix.chars().all(|c| c.is_ascii_digit() || ('a'..='f').contains(&c)));
}

#[test]
fn a_registration_leaves_the_other_tunnels_as_they_were() {
    let mut r: Registry<u32> = Registry::new();
    r.insert_if_absent("app".into(), 1).unwrap();
    r.insert_if_absent("web".into(), 2).unwrap();
    let first = r.allocate(Some("api"), 0, 0).unwrap();
    assert!(!first.reassigned);
    r.insert_if_absent(first.subdomain.clone(), 3).unwrap();
    let second = r.allocate(Some("app"), 0, 0x1f).unwrap();
    assert!(second.reassigned);
    assert_ne!(second.subdomain, "app");
    assert!(!r.contains(&second.subdomain));
    r.insert_if_absent(second.subdomain.clone(), 4).unwrap();
    assert_eq!(r.len(), 4);
    assert_eq!(r.get("app"), Some(&1));
    assert_eq!(r.get("web"), Some(&2));
    assert_eq!(r.get("api"), Some(&3));
    assert_eq!(r.get("app-1f"), Some(&4));
}

#[test]
fn the_suffix_goes_round() {
    let mut r: Registry<u32> = Registry::new();
    r.insert_if_absent("app".into(), 1).unwrap();
    r.insert_if_absent("app-ffe".into(), 1).unwrap();
    let a = r.allocate(Some("app"), 0, 0xffe).unwrap();
    assert_eq!(a.subdomain, "app-0");
}

#[test]
fn nothing_is_given_out_where_every_variant_is_taken() {
    let mut r: Registry<u32> = Registry::new();
    r.insert_if_absent("app".into(), 0).unwrap();
    for k in 0..MAX_ALLOCATION_TRIES {
        r.insert_if_absent(format!("app-{:x}", 5 + k), 0).unwrap();
    }
    assert!(r.allocate(Some("app"), 0, 5).is_none());
    assert_eq!(r.remove(&format!("app-{:x}", 5 + MAX_ALLOCATION_TRIES - 1)), Some(0));
    let a = r.allocate(Some("app"), 0, 5).unwrap();
    assert_eq!(a.subdomain, format!("app-{:x}", 5 + MAX_ALLOCATION_TRIES - 1));
}

#[test]
fn routes() {
    let mut r = SubdomainRouter::new();
    assert!(r.is_available("app"));
    r.add_route("app".into(), "t1".into());
    assert!(!r.is_available("app"));
    assert_eq!(r.get_tunnel_id("app"), Some("t1".to_string()));
    r.add_route("app".into(), "t2".into());
    assert_eq!(r.get_tunnel_id("app"), Some("t2".to_string()));
    r.remove_route("app");
    assert_eq!(r.get_tunnel_id("app"), None);
    assert!(SubdomainRouter::default().is_available("app"));
}
