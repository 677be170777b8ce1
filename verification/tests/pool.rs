use revtunnel::pool::{Allocation, AllocationError, ConfigError, DomainPortPool};

fn names(list: &[&str]) -> Vec<String> {
    list.iter().map(|s| s.to_string()).collect()
}

fn grant(domain: &str, port: u16) -> Allocation {
    Allocation { domain: domain.to_string(), port }
}

#[test]
fn an_empty_domain_list_is_a_configuration_error() {
    assert_eq!(DomainPortPool::new(3001, Vec::new()).err(), Some(ConfigError::NoDomains));
}

#[test]
fn a_domain_listed_twice_is_a_configuration_error() {
    assert_eq!(
        DomainPortPool::new(3001, names(&["foo", "bar", "foo"])).err(),
        Some(ConfigError::DuplicateDomain)
    );
}

#[test]
fn domains_without_ports_are_a_configuration_error() {
    assert_eq!(
        DomainPortPool::new(65534, names(&["foo", "bar"])).err(),
        Some(ConfigError::PortOverflow)
    );
    assert_eq!(DomainPortPool::new(65535, names(&["foo"])).err(), Some(ConfigError::PortOverflow));
    assert!(DomainPortPool::new(65534, names(&["foo"])).is_ok());
}

#[test]
fn overflow_is_reported_before_duplicates() {
    assert_eq!(
        DomainPortPool::new(65534, names(&["foo", "foo"])).err(),
        Some(ConfigError::PortOverflow)
    );
}

#[test]
fn ports_count_up_from_the_listening_port() {
    let mut pool = DomainPortPool::new(3001, names(&["foo", "bar", "baz"])).unwrap();
    assert_eq!(pool.len(), 3);
    assert_eq!(pool.allocate(None), Ok(grant("foo", 3002)));
    assert_eq!(pool.allocate(None), Ok(grant("bar", 3003)));
    assert_eq!(pool.allocate(None), Ok(grant("baz", 3004)));
}

#[test]
fn the_last_port_can_be_handed_out() {
    let mut pool = DomainPortPool::new(65534, names(&["foo"])).unwrap();
    assert_eq!(pool.allocate(None), Ok(grant("foo", 65535)));
}

#[test]
fn an_exhausted_pool_refuses() {
    let mut pool = DomainPortPool::new(3001, names(&["foo"])).unwrap();
    assert!(pool.allocate(None).is_ok());
    assert_eq!(pool.allocate(None), Err(AllocationError::NoDomainsAvailable));
    assert_eq!(pool.allocate(None), Err(AllocationError::NoDomainsAvailable));
    assert!(pool.is_held("foo", 3002));
}

#[test]
fn a_wish_does_not_change_the_choice() {
    let mut pool = DomainPortPool::new(3001, names(&["foo", "bar"])).unwrap();
    assert_eq!(pool.allocate(Some("bar")), Ok(grant("foo", 3002)));
    assert_eq!(pool.allocate(Some("nowhere")), Ok(grant("bar", 3003)));
}

#[test]
fn a_released_pair_is_handed_out_again() {
    let mut pool = DomainPortPool::new(3001, names(&["foo", "bar"])).unwrap();
    let first = pool.allocate(None).unwrap();
    let second = pool.allocate(None).unwrap();
    assert_ne!(first.port, second.port);
    assert_eq!(pool.allocate(None), Err(AllocationError::NoDomainsAvailable));
    pool.release("bar", 3003);
    assert!(!pool.is_held("bar", 3003));
    assert!(pool.is_held("foo", 3002));
    assert_eq!(pool.allocate(None), Ok(grant("bar", 3003)));
    pool.release("foo", 3002);
    assert_eq!(pool.allocate(None), Ok(grant("foo", 3002)));
}

#[test]
fn releasing_twice_is_releasing_once() {
    let mut pool = DomainPortPool::new(3001, names(&["foo", "bar"])).unwrap();
    pool.allocate(None).unwrap();
    pool.allocate(None).unwrap();
    pool.release("foo", 3002);
    pool.release("foo", 3002);
    assert_eq!(pool.allocate(None), Ok(grant("foo", 3002)));
    assert_eq!(pool.allocate(None), Err(AllocationError::NoDomainsAvailable));
}

#[test]
fn releasing_what_the_pool_never_had_changes_nothing() {
    let mut pool = DomainPortPool::new(3001, names(&["foo"])).unwrap();
    pool.allocate(None).unwrap();
    pool.release("foo", 3003);
    pool.release("bar", 3002);
    pool.release("", 0);
    assert!(pool.is_held("foo", 3002));
    assert!(!pool.is_held("foo", 3003));
    assert!(!pool.is_held("bar", 3002));
    assert_eq!(pool.allocate(None), Err(AllocationError::NoDomainsAvailable));
}

#[test]
fn releasing_a_free_pair_changes_nothing() {
    let mut pool = DomainPortPool::new(3001, names(&["foo", "bar"])).unwrap();
    pool.release("bar", 3003);
    assert_eq!(pool.allocate(None), Ok(grant("foo", 3002)));
    assert_eq!(pool.allocate(None), Ok(grant("bar", 3003)));
}

#[test]
fn no_port_is_held_twice_over_many_calls() {
    let domains = ["a", "b", "c", "d", "e"];
    let mut pool = DomainPortPool::new(4000, names(&domains)).unwrap();
    let mut out: Vec<Allocation> = Vec::new();
    let mut seed: u32 = 0x9e37_79b9;
    for _ in 0..500 {
        seed ^= seed << 13;
        seed ^= seed >> 17;
        seed ^= seed << 5;
        if seed % 3 != 0 {
            match pool.allocate(None) {
                Ok(grant) => {
                    assert!(out.iter().all(|held| held.port != grant.port));
                    assert!(out.iter().all(|held| held.domain != grant.domain));
                    out.push(grant);
                }
                Err(e) => {
                    assert_eq!(e, AllocationError::NoDomainsAvailable);
                    assert_eq!(out.len(), domains.len());
                }
            }
        } else if !out.is_empty() {
            let gone = out.remove((seed as usize / 3) % out.len());
            pool.release(&gone.domain, gone.port);
            assert!(!pool.is_held(&gone.domain, gone.port));
        }
        for held in &out {
            assert!(pool.is_held(&held.domain, held.port));
        }
    }
}

#[test]
fn an_allocation_clones_to_an_equal_one() {
    let a = grant("foo", 3002);
    assert_eq!(a.clone(), a);
}
