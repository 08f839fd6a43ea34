use prometheus::{Error, IntCounterVec, Opts, Registry};
use weighted_kad::metrics::{settle, Metrics};

fn counters(name: &str, labels: &[&str]) -> Box<IntCounterVec> {
    let opts = Opts::new(name, name).namespace("libp2p").subsystem("kad");
    Box::new(IntCounterVec::new(opts, labels).expect("valid names"))
}

#[test]
fn enabled_metrics_are_gathered() {
    let registry = Registry::new();
    let metrics = Metrics::enabled(&registry).expect("an empty registry");
    // Counters show up only with label values, the gauge at once.
    let families = registry.gather();
    assert_eq!(families.len(), 1);
    assert_eq!(families[0].get_name(), "libp2p_kad_records_stored");
    assert_eq!(families[0].get_help(), "records_stored");
    assert_eq!(families[0].get_metric()[0].get_gauge().get_value(), 0.0);
    drop(metrics);
}

#[test]
fn counters_have_their_names_and_labels() {
    let requests = ["find_node", "get_providers", "add_provider", "get_record", "put_record"];
    let responses = ["find_node", "get_providers", "get_record", "put_record"];
    let all: [(&str, &[&str]); 5] = [
        ("sent_requests", &requests),
        ("received_requests", &requests),
        ("sent_responses", &responses),
        ("received_responses", &responses),
        ("errors", &["todo"]),
    ];
    let registry = Registry::new();
    assert!(Metrics::enabled(&registry).is_ok());
    for (name, labels) in all.iter() {
        // The name is taken.
        assert!(matches!(registry.register(counters(name, labels)), Err(Error::AlreadyReg)));
        // The registry remembers the labels of a name.
        assert!(registry.unregister(counters(name, labels)).is_ok());
        assert!(matches!(registry.register(counters(name, &["other"])), Err(Error::Msg(_))));
        assert!(registry.register(counters(name, labels)).is_ok());
    }
}

#[test]
fn refused_metric_is_named() {
    let registry = Registry::new();
    assert!(Metrics::enabled(&registry).is_ok());
    match Metrics::enabled(&registry) {
        Err(refused) => {
            assert_eq!(refused.name, "sent_requests");
            assert!(refused.taken.is_empty());
            assert!(matches!(refused.error, Error::AlreadyReg));
        }
        Ok(_) => panic!("registered twice"),
    }

    let registry = Registry::new();
    registry.register(counters("errors", &["todo"])).expect("an empty registry");
    match Metrics::enabled(&registry) {
        Err(refused) => {
            assert_eq!(refused.name, "errors");
            assert_eq!(refused.taken.len(), 4);
        }
        Ok(_) => panic!("registered twice"),
    }
    // Those before the refused one were registered, the one behind it was not.
    for name in ["sent_requests", "received_requests", "sent_responses", "received_responses"] {
        assert!(registry.unregister(counters(name, &["any"])).is_ok());
    }
    assert!(registry.gather().is_empty());
}

#[test]
fn gauge_is_registered_last() {
    let registry = Registry::new();
    registry.register(counters("records_stored", &["label"])).expect("an empty registry");
    match Metrics::enabled(&registry) {
        Err(refused) => {
            assert_eq!(refused.name, "records_stored");
            assert_eq!(refused.taken.len(), 5);
        }
        Ok(_) => panic!("registered twice"),
    }
}

#[test]
fn disabled_metrics_register_nothing() {
    let registry = Registry::new();
    let metrics = Metrics::disabled();
    assert!(registry.gather().is_empty());
    assert!(Metrics::enabled(&registry).is_ok());
    drop(metrics);
}

#[test]
fn answer_of_the_registry_settles() {
    let registry = Registry::new();
    registry.register(counters("sent_responses", &["todo"])).expect("an empty registry");
    let mut taken = Metrics::enabled(&registry).err().expect("refused").taken;
    assert_eq!(taken.len(), 2);
    let last = taken.pop().expect("two were taken");
    let taken = settle(taken, "name", Ok(last)).expect("taken");
    assert_eq!(taken.len(), 2);
    let refused = settle(taken, "name", Err(Error::AlreadyReg)).err().expect("refused");
    assert_eq!(refused.name, "name");
    assert_eq!(refused.taken.len(), 2);
    assert!(matches!(refused.error, Error::AlreadyReg));
}
