use axum_flash::{
    cookie_name, decode_cookie_value, finalize_response, Config, Flash, FlashCookie,
    IncomingFlashes, Level, MissingKeyError, SigningKey,
};

fn assert_common_attributes(c: &FlashCookie, secure: bool) {
    assert_eq!(c.name, "axum-flash");
    assert_eq!(c.name, cookie_name());
    assert!(c.http_only);
    assert!(c.same_site_strict);
    assert_eq!(c.path, "/");
    assert_eq!(c.secure, secure);
}

#[test]
fn live_cookie_attributes() {
    let config = Config::new(SigningKey::generate());
    let flash = Flash::from_config(&config).info("hello");
    let cookie = flash.into_cookie().expect("non-empty flash sets a cookie");
    assert_common_attributes(&cookie, true);
    assert_eq!(cookie.max_age_seconds, 600);
    assert!(!cookie.value.is_empty());
}

#[test]
fn removal_cookie_attributes() {
    let config = Config::new(SigningKey::generate()).use_secure_cookies(false);
    let incoming = IncomingFlashes::from_cookie_value(None, &config);
    let cookie = incoming.removal_cookie();
    assert_common_attributes(&cookie, false);
    assert_eq!(cookie.max_age_seconds, 0);
    assert!(cookie.value.is_empty());
}

#[test]
fn secure_flag_follows_configuration() {
    let config = Config::new(SigningKey::generate()).use_secure_cookies(false);
    let flash = Flash::from_config(&config).error("oops");
    let cookie = flash.into_cookie().unwrap();
    assert!(!cookie.secure);
}

#[test]
fn empty_flash_sets_no_cookie() {
    let config = Config::new(SigningKey::generate());
    let flash = Flash::from_config(&config);
    assert!(flash.into_cookie().is_none());
}

#[test]
fn exactly_once_delivery() {
    let config = Config::new(SigningKey::generate());

    // request 1: the handler queues one message
    let flash = Flash::from_config(&config).debug("Hi from flash!");
    let set_cookie = finalize_response(Some(flash), None).expect("a cookie is set");
    assert_eq!(set_cookie.max_age_seconds, 600);

    // request 2: the client echoes the cookie; the handler queues nothing
    let incoming = IncomingFlashes::from_cookie_value(Some(&set_cookie.value), &config);
    assert_eq!(incoming.len(), 1);
    let mut it = incoming.iter();
    let (level, text) = it.next().unwrap();
    assert_eq!(level, Level::Debug);
    assert_eq!(text, "Hi from flash!");
    assert!(it.next().is_none());

    let response_cookie = finalize_response(None, Some(&incoming)).expect("removal is emitted");
    assert_eq!(response_cookie.max_age_seconds, 0);
    assert!(response_cookie.value.is_empty());
    assert_eq!(response_cookie.name, "axum-flash");

    // a replay of the original (pre-removal) cookie would still decode:
    // removal is a client-side contract, not server memory
    let replay = IncomingFlashes::from_cookie_value(Some(&set_cookie.value), &config);
    assert_eq!(replay.len(), 1);
}

#[test]
fn overwrite_suppresses_removal() {
    let config = Config::new(SigningKey::generate());

    let flash = Flash::from_config(&config).warning("M");
    let first = finalize_response(Some(flash), None).unwrap();

    // request 2 consumes M and queues M2: one live cookie, no removal
    let incoming = IncomingFlashes::from_cookie_value(Some(&first.value), &config);
    assert_eq!(incoming.len(), 1);
    let flash2 = Flash::from_config(&config).info("M2");
    let second = finalize_response(Some(flash2), Some(&incoming)).expect("one cookie");
    assert_eq!(second.max_age_seconds, 600);
    let carried = decode_cookie_value(&second.value, &config.key);
    assert_eq!(carried.len(), 1);
    assert_eq!(carried[0].level, Level::Info);
    assert_eq!(carried[0].text, "M2");
}

#[test]
fn no_cookie_when_nothing_happened() {
    let config = Config::new(SigningKey::generate());
    let incoming = IncomingFlashes::from_cookie_value(None, &config);
    assert!(incoming.is_empty());
    assert!(finalize_response(None, Some(&incoming)).is_none());
    assert!(finalize_response(None, None).is_none());
    let empty_flash = Flash::from_config(&config);
    assert!(finalize_response(Some(empty_flash), Some(&incoming)).is_none());
}

#[test]
fn reader_absorbs_corrupt_cookies() {
    let config = Config::new(SigningKey::generate());
    let incoming = IncomingFlashes::from_cookie_value(Some("tampered!"), &config);
    assert!(incoming.is_empty());
    assert_eq!(incoming.len(), 0);
}

#[test]
fn iteration_is_ordered_and_restartable() {
    let config = Config::new(SigningKey::generate());
    let flash = Flash::from_config(&config)
        .debug("d")
        .error("e")
        .info("i")
        .success("s")
        .warning("w");
    let cookie = flash.into_cookie().unwrap();
    let incoming = IncomingFlashes::from_cookie_value(Some(&cookie.value), &config);
    assert_eq!(incoming.len(), 5);

    let expected = [
        (Level::Debug, "d"),
        (Level::Error, "e"),
        (Level::Info, "i"),
        (Level::Success, "s"),
        (Level::Warning, "w"),
    ];
    for _round in 0..2 {
        let mut it = incoming.iter();
        for (level, text) in expected.iter() {
            let (l, t) = it.next().unwrap();
            assert_eq!(l, *level);
            assert_eq!(t, *text);
        }
        assert!(it.next().is_none());
    }

    let owned = incoming.into_messages();
    assert_eq!(owned.len(), 5);
    assert_eq!(owned[0].text, "d");
    assert_eq!(owned[4].text, "w");
}

#[test]
fn formatted_like_the_host_application_would() {
    let config = Config::new(SigningKey::generate()).use_secure_cookies(false);
    let flash = Flash::from_config(&config).debug("Hi from flash!");
    let cookie = finalize_response(Some(flash), None).unwrap();

    let incoming = IncomingFlashes::from_cookie_value(Some(&cookie.value), &config);
    let mut rendered: Vec<String> = Vec::new();
    let mut it = incoming.iter();
    while let Some((level, text)) = it.next() {
        rendered.push(format!("{:?}: {}", level, text));
    }
    assert_eq!(rendered.join(", "), "Debug: Hi from flash!");

    let removal = finalize_response(None, Some(&incoming)).unwrap();
    assert_eq!(removal.max_age_seconds, 0);
}

#[test]
fn level_order_and_ordinals() {
    assert!(Level::Debug < Level::Info);
    assert!(Level::Info < Level::Success);
    assert!(Level::Success < Level::Warning);
    assert!(Level::Warning < Level::Error);
    assert_eq!(Level::Debug.ordinal(), 0);
    assert_eq!(Level::Info.ordinal(), 1);
    assert_eq!(Level::Success.ordinal(), 2);
    assert_eq!(Level::Warning.ordinal(), 3);
    assert_eq!(Level::Error.ordinal(), 4);
    assert_eq!(Level::from_ordinal(2), Some(Level::Success));
    assert_eq!(Level::from_ordinal(5), None);

    let mut levels = vec![Level::Error, Level::Debug, Level::Warning];
    levels.sort();
    assert_eq!(levels, vec![Level::Debug, Level::Warning, Level::Error]);
}

#[test]
fn decode_preserves_order_across_mixed_levels() {
    let config = Config::new(SigningKey::generate());
    let flash = Flash::from_config(&config).error("z").debug("a").warning("m");
    let cookie = flash.into_cookie().unwrap();
    let decoded = decode_cookie_value(&cookie.value, &config.key);
    let levels: Vec<Level> = decoded.iter().map(|m| m.level).collect();
    assert_eq!(levels, vec![Level::Error, Level::Debug, Level::Warning]);
}

#[test]
fn missing_key_is_a_server_error() {
    let err: MissingKeyError = match SigningKey::resolve(None) {
        Ok(_) => panic!("no key installed, yet resolution succeeded"),
        Err(e) => e,
    };
    assert_eq!(err.status, 500);
    assert!(err.message.contains("`SigningKey` extension missing"));
    assert!(err.message.contains("axum_flash::layer()"));
}

#[test]
fn present_key_resolves() {
    let key = SigningKey::generate();
    let resolved = SigningKey::resolve(Some(&key)).expect("key installed");
    assert_eq!(resolved.bytes, key.bytes);
}
