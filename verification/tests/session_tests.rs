use pw_roundtrip::device::Direction;
use pw_roundtrip::props::Props;
use pw_roundtrip::session::{classify, run_session, Event, ObjectKind, Relevance, Session, CORE_ID};

fn props_of(pairs: &[(&str, &str)]) -> Props {
    let mut p = Props::new();
    for (k, v) in pairs {
        p.push((*k).to_owned(), (*v).to_owned());
    }
    p
}

fn global(kind: ObjectKind, id: u32, pairs: &[(&str, &str)]) -> Event {
    Event::Global { kind, id, props: Some(props_of(pairs)) }
}

fn done(seq: u64) -> Event {
    Event::Done { id: CORE_ID, seq }
}

fn meta(key: &str, value: &str) -> Event {
    Event::MetaProperty { key: Some(key.to_owned()), value: Some(value.to_owned()) }
}

// Scenario: zero relevant objects discovered.  The loop terminates on exactly
// the initial completion event and the store stays empty.
#[test]
fn no_objects_terminates_on_initial_completion() {
    let s = run_session(&vec![done(0)]);
    assert!(s.stopped);
    assert!(s.devices.is_empty());
    assert_eq!(s.pending.len(), 0);

    // without the initial completion the loop never stops
    let s = run_session(&vec![]);
    assert!(!s.stopped);
    assert_eq!(s.pending.len(), 1);
}

// Scenario: two devices, completions arriving out of issue order.  The loop
// terminates only once all three tokens are matched.
#[test]
fn two_devices_out_of_order_completions() {
    let d1 = global(ObjectKind::Node, 10, &[("media.class", "Audio/Sink")]);
    let d2 = global(ObjectKind::Node, 20, &[("media.class", "Audio/Source")]);
    let i1 = Event::NodeInfo {
        id: 10,
        props: Some(props_of(&[
            ("media.class", "Audio/Sink"),
            ("node.name", "alsa_output.foo"),
            ("audio.channels", "2"),
        ])),
    };
    let i2 = Event::NodeInfo {
        id: 20,
        props: Some(props_of(&[
            ("media.class", "Audio/Source"),
            ("node.name", "alsa_input.bar"),
            ("audio.channels", "1"),
        ])),
    };
    // tokens: initial = 0, d1 = 1, d2 = 2; completions arrive [d2, initial, d1]
    let events = vec![d1, d2, i1, i2, done(2), done(0), done(1)];

    let s = run_session(&events);
    assert!(s.stopped);
    assert_eq!(s.pending.len(), 0);
    assert_eq!(s.devices.len(), 2);
    let foo = s.devices.iter().find(|d| d.node_name == "alsa_output.foo").unwrap();
    assert_eq!(foo.direction, Direction::Input);
    assert_eq!(foo.channels, 2);
    assert_eq!(foo.id, 10);
    let bar = s.devices.iter().find(|d| d.node_name == "alsa_input.bar").unwrap();
    assert_eq!(bar.direction, Direction::Output);
    assert_eq!(bar.channels, 1);
    assert_eq!(bar.id, 20);
}

// The loop must still be running after any proper prefix of the completions:
// two of the three matched tokens are not enough.
#[test]
fn two_devices_need_all_three_completions() {
    for cut in [4usize, 5, 6] {
        let mut events = vec![
            global(ObjectKind::Node, 10, &[("media.class", "Audio/Sink")]),
            global(ObjectKind::Node, 20, &[("media.class", "Audio/Source")]),
            Event::NodeInfo {
                id: 10,
                props: Some(props_of(&[("media.class", "Audio/Sink")])),
            },
            Event::NodeInfo {
                id: 20,
                props: Some(props_of(&[("media.class", "Audio/Source")])),
            },
            done(2),
            done(0),
            done(1),
        ];
        events.truncate(cut);
        let matched = cut.saturating_sub(4);
        let s = run_session(&events);
        assert!(!s.stopped);
        assert_eq!(s.pending.len(), 3 - matched);
    }
}

// Scenario: the settings object first sets the rate, then a well-formed
// allowed-rates list, then a malformed one, which is discarded whole.
#[test]
fn settings_updates_and_discards_malformed() {
    let m = global(ObjectKind::Metadata, 30, &[("metadata.name", "settings")]);
    let events = vec![
        m,
        meta("clock.rate", "48000"),
        meta("clock.allowed-rates", "[44100 48000]"),
        meta("clock.allowed-rates", "[44100 xyz]"),
        done(0),
        done(1),
    ];
    let s = run_session(&events);
    assert!(s.stopped);
    assert_eq!(s.settings.rate, 48000);
    assert_eq!(s.settings.allow_rates, vec![44100, 48000]);
}

// Scenario: an announcement without a media class is ignored: no
// subscription, no token, and the initial completion alone stops the loop.
#[test]
fn object_without_media_class_is_ignored() {
    let g = global(ObjectKind::Node, 40, &[("node.name", "x")]);
    let s = run_session(&vec![g, done(0)]);
    assert!(s.stopped);
    assert!(s.devices.is_empty());
    assert!(s.subs.is_empty());
    assert_eq!(s.pending.len(), 0);
}

#[test]
fn classify_decisions() {
    let dev = props_of(&[("media.class", "Audio/Sink")]);
    assert_eq!(classify(ObjectKind::Node, Some(&dev)), Relevance::Device);
    let vid = props_of(&[("media.class", "Video/Source")]);
    assert_eq!(classify(ObjectKind::Node, Some(&vid)), Relevance::Irrelevant);
    let set = props_of(&[("metadata.name", "settings")]);
    assert_eq!(classify(ObjectKind::Metadata, Some(&set)), Relevance::SettingsObject);
    let other = props_of(&[("metadata.name", "default")]);
    assert_eq!(classify(ObjectKind::Metadata, Some(&other)), Relevance::Irrelevant);
    assert_eq!(classify(ObjectKind::Node, None), Relevance::Irrelevant);
    assert_eq!(classify(ObjectKind::Other, Some(&dev)), Relevance::Irrelevant);
}

// A completion with an unknown or already-removed token never changes the
// barrier and never stops the loop; one for a foreign id is ignored too.
#[test]
fn stale_or_foreign_completions_are_ignored() {
    let mut s = Session::new();
    s.track(0);
    s.track(5);
    assert!(!s.on_done(CORE_ID, 99));
    assert_eq!(s.pending.len(), 2);
    assert!(!s.on_done(CORE_ID + 1, 5));
    assert_eq!(s.pending.len(), 2);
    assert!(!s.on_done(CORE_ID, 5));
    assert_eq!(s.pending.len(), 1);
    // the same token again: already removed, a no-op
    assert!(!s.on_done(CORE_ID, 5));
    assert_eq!(s.pending.len(), 1);
    assert!(!s.stopped);
    // the last token stops the loop
    assert!(s.on_done(CORE_ID, 0));
    assert_eq!(s.pending.len(), 0);
    assert!(s.stopped);
}

// A token is pending at most once: tracking it twice does not require two
// completions.
#[test]
fn double_track_is_single() {
    let mut s = Session::new();
    s.track(7);
    s.track(7);
    assert_eq!(s.pending.len(), 1);
    assert!(s.on_done(CORE_ID, 7));
}

// Entity content does not depend on the arrival order of unrelated objects'
// events.
#[test]
fn entity_content_independent_of_order() {
    let events_a = vec![
        global(ObjectKind::Node, 1, &[("media.class", "Audio/Sink")]),
        global(ObjectKind::Node, 2, &[("media.class", "Audio/Source")]),
        Event::NodeInfo {
            id: 1,
            props: Some(props_of(&[("media.class", "Audio/Sink"), ("node.name", "a")])),
        },
        Event::NodeInfo {
            id: 2,
            props: Some(props_of(&[("media.class", "Audio/Source"), ("node.name", "b")])),
        },
        done(0),
        done(1),
        done(2),
    ];
    let events_b = vec![
        global(ObjectKind::Node, 2, &[("media.class", "Audio/Source")]),
        global(ObjectKind::Node, 1, &[("media.class", "Audio/Sink")]),
        Event::NodeInfo {
            id: 2,
            props: Some(props_of(&[("media.class", "Audio/Source"), ("node.name", "b")])),
        },
        Event::NodeInfo {
            id: 1,
            props: Some(props_of(&[("media.class", "Audio/Sink"), ("node.name", "a")])),
        },
        done(2),
        done(1),
        done(0),
    ];
    let sa = run_session(&events_a);
    let sb = run_session(&events_b);
    assert!(sa.stopped && sb.stopped);
    assert_eq!(sa.devices.len(), 2);
    assert_eq!(sb.devices.len(), 2);
    let a_in_a = sa.devices.iter().find(|d| d.node_name == "a").unwrap();
    let a_in_b = sb.devices.iter().find(|d| d.node_name == "a").unwrap();
    assert_eq!(a_in_a.id, a_in_b.id);
    assert_eq!(a_in_a.direction, a_in_b.direction);
    assert_eq!(a_in_a.channels, a_in_b.channels);
}

// An info event for an object that was never subscribed leaves the store
// unchanged.
#[test]
fn unsubscribed_info_is_dropped() {
    let events = vec![
        Event::NodeInfo {
            id: 9,
            props: Some(props_of(&[("media.class", "Audio/Sink")])),
        },
        done(0),
    ];
    let s = run_session(&events);
    assert!(s.stopped);
    assert!(s.devices.is_empty());
}

// A device object may fire its info event more than once; each firing appends
// another entity.
#[test]
fn repeated_info_appends_again() {
    let events = vec![
        global(ObjectKind::Node, 1, &[("media.class", "Audio/Sink")]),
        Event::NodeInfo {
            id: 1,
            props: Some(props_of(&[("media.class", "Audio/Sink"), ("node.name", "a")])),
        },
        Event::NodeInfo {
            id: 1,
            props: Some(props_of(&[("media.class", "Audio/Sink"), ("node.name", "a")])),
        },
        done(0),
        done(1),
    ];
    let s = run_session(&events);
    assert_eq!(s.devices.len(), 2);
}

// A device and the settings object in one session: the barrier generalizes
// over both listener kinds, and each entity resolves independently.
#[test]
fn mixed_device_and_settings_session() {
    let events = vec![
        global(ObjectKind::Node, 1, &[("media.class", "Audio/Sink")]),
        global(ObjectKind::Metadata, 2, &[("metadata.name", "settings")]),
        Event::NodeInfo {
            id: 1,
            props: Some(props_of(&[("media.class", "Audio/Sink"), ("node.name", "a")])),
        },
        meta("clock.quantum", "1024"),
        done(1),
        done(2),
        done(0),
    ];
    let s = run_session(&events);
    assert!(s.stopped);
    assert_eq!(s.devices.len(), 1);
    assert_eq!(s.devices[0].node_name, "a");
    assert_eq!(s.settings.quantum, 1024);
}

// Completion events for a foreign id never touch the barrier, even with a
// matching token.
#[test]
fn foreign_id_completion_is_ignored_by_the_loop() {
    let events = vec![Event::Done { id: CORE_ID + 7, seq: 0 }, done(0)];
    let s = run_session(&events);
    assert!(s.stopped);

    let events = vec![Event::Done { id: CORE_ID + 7, seq: 0 }];
    let s = run_session(&events);
    assert!(!s.stopped);
    assert_eq!(s.pending.len(), 1);
}

// Events after the one that empties the barrier are never processed.
#[test]
fn dispatch_stops_at_termination() {
    let events = vec![
        global(ObjectKind::Metadata, 2, &[("metadata.name", "settings")]),
        done(0),
        done(1),
        meta("clock.rate", "48000"),
    ];
    let s = run_session(&events);
    assert!(s.stopped);
    assert_eq!(s.settings.rate, 0);
}

// Settings events reach the record only after the settings object was bound.
#[test]
fn settings_update_requires_binding() {
    let events = vec![meta("clock.rate", "48000"), done(0)];
    let s = run_session(&events);
    assert!(s.stopped);
    assert_eq!(s.settings.rate, 0);
}
