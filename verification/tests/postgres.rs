use graph_node::domains::MAX_NAME_LEN;
use graph_node::postgres::{
    check_pool_size, host_result, read_replicas, replace_host, try_replace_host, PoolTooSmall,
    ReplaceHostError, ReplicaError, DOMAIN_ROOM, MAX_URL_BYTES,
};

#[test]
fn the_host_alone_is_replaced() {
    assert_eq!(
        replace_host("postgresql://user:pw@primary:5432/db?ssl=on#f", "replica-1.x").unwrap(),
        "postgresql://user:pw@replica-1.x:5432/db?ssl=on#f"
    );
    assert_eq!(
        replace_host("postgres://primary/db", "10.0.0.2").unwrap(),
        "postgres://10.0.0.2/db"
    );
    // A port that comes with the host is dropped.
    assert_eq!(
        replace_host("postgres://primary:1/db", "other:2").unwrap(),
        "postgres://other:1/db"
    );
    // A URL without an authority gets one.
    assert_eq!(
        replace_host("postgres:/db", "other").unwrap(),
        "postgres://other/db"
    );
    assert_eq!(
        replace_host("postgres://primary/db", "[::1]").unwrap(),
        "postgres://[::1]/db"
    );
}

#[test]
fn texts_that_are_no_urls_are_refused() {
    match replace_host("primary/db", "other") {
        Err(ReplaceHostError::InvalidUrl(message)) => {
            assert_eq!(message, "Invalid Postgres URL primary/db")
        }
        other => panic!("{:?}", other),
    }
}

#[test]
fn hosts_that_are_no_hosts_are_refused() {
    match replace_host("postgres://primary/db", "no host") {
        Err(ReplaceHostError::InvalidHost(message)) => assert_eq!(
            message,
            "Invalid Postgres url postgres://primary/db: invalid domain character"
        ),
        other => panic!("{:?}", other),
    }
    match replace_host("mailto:x", "other") {
        Err(ReplaceHostError::InvalidHost(message)) => assert_eq!(
            message,
            "Invalid Postgres url mailto:x: \
             a cannot-be-a-base URL doesn\u{2019}t have a host to set"
        ),
        other => panic!("{:?}", other),
    }
    match replace_host("http://primary/db", "") {
        Err(ReplaceHostError::InvalidHost(message)) => {
            assert_eq!(message, "Invalid Postgres url http://primary/db: empty host")
        }
        other => panic!("{:?}", other),
    }
}

#[test]
fn forbidden_characters_are_refused() {
    for c in "\0\t\n\r #/?@[\\]".chars() {
        match replace_host("postgres://primary/db", &format!("a{}b", c)) {
            Err(ReplaceHostError::InvalidHost(message)) => assert_eq!(
                message,
                "Invalid Postgres url postgres://primary/db: invalid domain character"
            ),
            other => panic!("{:?}: {:?}", c, other),
        }
    }
    assert!(replace_host("postgres://primary/db", ":80").is_err());
    let visible: String = ('!'..='~').filter(|c| !"#/:?@[\\]".contains(*c)).collect();
    assert_eq!(
        replace_host("postgres://primary/db", &format!("{}:x@y", visible)).unwrap(),
        format!("postgres://{}/db", visible)
    );
}

#[test]
fn hosts_that_are_too_long_are_refused() {
    let url = "postgres://primary/db";
    let room = (MAX_URL_BYTES - DOMAIN_ROOM) as usize - url.len();
    let host = "a".repeat(room / 12 + 1);
    assert!(try_replace_host(url, &host).is_none());
    assert!(matches!(
        read_replicas(url, &vec![host]),
        Err(ReplicaError::TooLong)
    ));
    let host = "a".repeat(0x10_0001);
    let replaced = try_replace_host(url, &host).unwrap().unwrap();
    assert_eq!(replaced.len(), host.len() + "postgres:///db".len());
    assert!(matches!(
        try_replace_host("nonsense", "h"),
        Some(Err(ReplaceHostError::InvalidUrl(_)))
    ));
}

#[test]
fn domain_names_that_are_too_long_are_refused() {
    let host = "\u{fc}".repeat(MAX_NAME_LEN);
    let replaced = try_replace_host("http://primary/db", &host).unwrap().unwrap();
    assert!(replaced.starts_with("http://xn--"));
    assert!(try_replace_host("http://primary/db", &format!("{}a", host)).is_none());
    assert!(try_replace_host(&format!("http://{}a/db", host), "other").is_none());
    assert!(try_replace_host(&format!(" \n//{}a/db", host), "other").is_some());
    // The widest character, as often as it is taken.
    let host = "\u{fdfa}".repeat(MAX_NAME_LEN);
    assert!(try_replace_host("http://primary/db", &host).is_some());
    let host = format!("{}\u{10ff70}", "\u{fdfa}".repeat(MAX_NAME_LEN - 1));
    assert!(try_replace_host("http://primary/db", &host).is_some());
    // A domain name is encoded.
    assert_eq!(
        replace_host("http://primary/db", "B\u{fc}cher.example").unwrap(),
        "http://xn--bcher-kva.example/db"
    );
    // One that stays as it is has no such limit, and neither has what stands around it.
    let long = "a-1.".repeat(2000);
    assert_eq!(
        try_replace_host(&format!("http://u@{}x/{}?{}", long, host, host), &long).unwrap().unwrap(),
        replace_host(&format!("http://u@x/{}?{}", host, host), &long).unwrap()
    );
    // Nor have hosts of other schemes, also after blanks.
    let label = "a".repeat(4000);
    for blank in vec!["", " ", "\n \u{1}"] {
        assert_eq!(
            try_replace_host(&format!("{}postgres://{}\u{10ff70}/db", blank, label), "other")
                .unwrap()
                .unwrap(),
            "postgres://other/db"
        );
    }
    assert_eq!(
        try_replace_host("postgres://primary/db", &host).unwrap().unwrap(),
        format!(
            "postgres://{}%F4%8F%BD%B0/db",
            "%EF%B7%BA".repeat(MAX_NAME_LEN - 1)
        )
    );
    // Nor texts that are no URLs at all.
    for text in vec![format!("/{}\u{10ff70}", label), format!("h{}\u{10ff70}", label)] {
        assert!(matches!(
            try_replace_host(&text, "other"),
            Some(Err(ReplaceHostError::InvalidUrl(_)))
        ));
    }
}

/// URLs with hosts that are no domain names, most of them not in the form in which they are parsed.
fn opaque_urls() -> Vec<&'static str> {
    vec![
        " postgres://primary/db",
        "postgresql://user:pw@primary:5432/db?ssl=on#f",
        " POSTGRES://us er:p:w@x@Primary:05432/a/./b/../c d/%2e/e?q=\"x\"#f<\u{e9}#g\t",
        "postgres://::@h",
        "postgres://:@h:?",
        "postgres://[0:0::1]:0#",
        "postgresql://%41{b}%/..//C:/..",
        "postgres://h:1\\x",
        "foo+bar://u@h:1/x?y#z",
    ]
}

/// The parts of a URL but for its host.
fn other_parts(url: &url::Url) -> Vec<Option<String>> {
    vec![
        Some(url.scheme().to_string()),
        Some(url.username().to_string()),
        url.password().map(|p| p.to_string()),
        url.port().map(|p| p.to_string()),
        Some(url.path().to_string()),
        url.query().map(|q| q.to_string()),
        url.fragment().map(|f| f.to_string()),
    ]
}

#[test]
fn everything_but_the_host_is_kept() {
    for text in opaque_urls() {
        let url = url::Url::parse(text).unwrap();
        let hosts = vec!["other", "10.0.0.2", "Replica_1.x", "b\u{fc}<", "[1:0:0:2::]", "o:1"];
        for host in hosts {
            let replaced = try_replace_host(text, host).unwrap().unwrap();
            let again = url::Url::parse(&replaced).unwrap();
            assert_eq!(again.as_str(), replaced);
            assert_eq!(other_parts(&again), other_parts(&url));
        }
        let again = url::Url::parse(&replace_host(text, "Replica_1.x").unwrap()).unwrap();
        assert_eq!(again.host_str(), Some("Replica_1.x"));
    }
}

#[test]
fn the_last_host_decides() {
    for text in opaque_urls() {
        let first = replace_host(text, "first").unwrap();
        for host in vec!["second", "[::1]", "b\u{fc}:2", "first", ""] {
            assert_eq!(
                replace_host(&first, host).unwrap(),
                replace_host(text, host).unwrap()
            );
        }
        assert_eq!(replace_host(&first, "first").unwrap(), first);
        assert!(replace_host(&first, "no host").is_err());
    }
}

#[test]
fn the_first_host_restores_the_url() {
    for text in opaque_urls() {
        let url = url::Url::parse(text).unwrap();
        let host = url.host_str().unwrap();
        assert_eq!(replace_host(text, host).unwrap(), url.as_str());
        for other in vec!["other", "[::1]", "b\u{fc}"] {
            let replaced = replace_host(text, other).unwrap();
            assert_eq!(replace_host(&replaced, host).unwrap(), url.as_str());
        }
    }
}

#[test]
fn some_urls_cannot_be_read_again() {
    // A path that starts with a backslash runs into a host whose port is left out.
    let replaced = replace_host("postgres://h:\\x", "other").unwrap();
    assert_eq!(replaced, "postgres://other\\x");
    assert!(matches!(
        replace_host(&replaced, "h"),
        Err(ReplaceHostError::InvalidUrl(_))
    ));
    // A user without a host is refused.
    let replaced = replace_host("postgres://user@h/db", "").unwrap();
    assert_eq!(replaced, "postgres://user@/db");
    assert!(matches!(
        replace_host(&replaced, "h"),
        Err(ReplaceHostError::InvalidUrl(_))
    ));
}

#[test]
fn outcomes_become_results() {
    assert_eq!(host_result("u".to_string(), Ok(())).unwrap(), "u");
    match host_result("u".to_string(), Err("why".to_string())) {
        Err(ReplaceHostError::InvalidHost(message)) => {
            assert_eq!(message, "Invalid Postgres url u: why")
        }
        other => panic!("{:?}", other),
    }
}

#[test]
fn every_replica_has_a_pool() {
    let hosts: Vec<String> = (0..12).map(|i| format!("h{}", i)).collect();
    let pools = read_replicas("postgres://u@primary:1/db", &hosts).unwrap();
    assert_eq!(pools.len(), 12);
    for (i, pool) in pools.iter().enumerate() {
        assert_eq!(pool.name, format!("replica{}", i));
        assert_eq!(pool.url, format!("postgres://u@h{}:1/db", i));
    }
    let hosts = vec!["ok".to_string(), "not ok".to_string(), "#".to_string()];
    assert!(matches!(
        read_replicas("postgres://primary/db", &hosts),
        Err(ReplicaError::Host(ReplaceHostError::InvalidHost(_)))
    ));
    assert!(read_replicas("nonsense", &Vec::new()).unwrap().is_empty());
}

#[test]
fn pools_need_two_connections() {
    assert_eq!(check_pool_size(0), Err(PoolTooSmall));
    assert_eq!(check_pool_size(1), Err(PoolTooSmall));
    assert_eq!(check_pool_size(2), Ok(2));
    assert_eq!(check_pool_size(u32::MAX), Ok(u32::MAX));
    assert_eq!(
        PoolTooSmall.message(),
        "--store-connection-pool-size/STORE_CONNECTION_POOL_SIZE must be > 1"
    );
}
