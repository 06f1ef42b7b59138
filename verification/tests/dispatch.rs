use events::dispatch::{Dispatch, DELIVERY_UNITS};
use events::error::Error;
use events::guest::{EventHandler, ExecHost};
use events::invoker::{Invoker, Outcome};
use events::label::event_label;
use events::observable::Observable;

fn handled(ordinal: usize) -> Outcome {
    Outcome::Handled(EventHandler::event_handler(event_label(ordinal)))
}

fn trapped(message: &str) -> Outcome {
    Outcome::Trapped(message.to_string())
}

#[test]
fn labels_are_ordinal_derived() {
    assert_eq!(event_label(0), "event-0");
    assert_eq!(event_label(9), "event-9");
    assert_eq!(event_label(10), "event-10");
    assert_eq!(event_label(1234567890), "event-1234567890");
    assert_eq!(event_label(usize::MAX), format!("event-{}", usize::MAX));
}

#[test]
fn a_dispatch_has_ten_units_with_distinct_labels() {
    let dispatch = Dispatch::new(0, 5);
    assert_eq!(DELIVERY_UNITS, 10);
    assert_eq!(dispatch.units(), 10);
    let labels = dispatch.labels();
    assert_eq!(
        labels,
        vec![
            "event-0", "event-1", "event-2", "event-3", "event-4", "event-5", "event-6",
            "event-7", "event-8", "event-9"
        ]
    );
    for i in 0..10 {
        assert_eq!(dispatch.label(i), Some(labels[i].clone()));
        for j in 0..i {
            assert_ne!(labels[i], labels[j]);
        }
    }
    assert_eq!(dispatch.label(10), None);
}

#[test]
fn exec_does_not_conclude_before_every_unit_has_completed() {
    let mut dispatch = Dispatch::new(3, 5);
    for i in 0..10 {
        assert_eq!(dispatch.completed(), i);
        assert!(!dispatch.is_finished());
        assert!(dispatch.conclude().is_none());
        assert!(dispatch.complete(i, handled(i)));
    }
    assert_eq!(dispatch.completed(), 10);
    assert!(dispatch.is_finished());
    assert!(matches!(dispatch.conclude(), Some(Ok(()))));
}

#[test]
fn units_complete_in_any_order_and_only_once() {
    let mut dispatch = Dispatch::new(3, 5);
    for i in [9usize, 0, 4, 2, 7, 1, 8, 3, 6, 5] {
        assert!(dispatch.complete(i, handled(i)));
        assert!(!dispatch.complete(i, trapped("late")));
    }
    assert!(!dispatch.complete(10, handled(10)));
    assert!(!dispatch.complete(usize::MAX, handled(0)));
    assert_eq!(dispatch.completed(), 10);
    assert!(matches!(dispatch.conclude(), Some(Ok(()))));
}

#[test]
fn a_trap_in_one_unit_does_not_hold_the_others_back() {
    let mut dispatch = Dispatch::new(3, 5);
    assert!(dispatch.complete(4, trapped("unreachable executed")));
    assert!(dispatch.conclude().is_none());
    for i in 0..10 {
        if i != 4 {
            assert!(dispatch.complete(i, handled(i)));
        }
    }
    assert_eq!(dispatch.completed(), 10);
    assert!(dispatch.is_finished());
    match dispatch.conclude() {
        Some(Err(error)) => assert_eq!(
            error.description(),
            "delivery units trapped: event-4: unreachable executed; "
        ),
        _ => panic!("expected the described error"),
    }
}

#[test]
fn every_trap_is_reported_in_ordinal_order() {
    let mut dispatch = Dispatch::new(3, 5);
    for i in (0..10).rev() {
        if i == 7 || i == 1 {
            assert!(dispatch.complete(i, trapped(&format!("trap {}", i))));
        } else {
            assert!(dispatch.complete(i, handled(i)));
        }
    }
    match dispatch.conclude() {
        Some(Err(Error::ErrorWithDescription(text))) => {
            assert_eq!(text, "delivery units trapped: event-1: trap 1; event-7: trap 7; ")
        }
        _ => panic!("expected the described error"),
    }
}

#[test]
fn the_duration_is_kept_and_not_enforced() {
    let mut dispatch = Dispatch::new(8, 0);
    assert_eq!(dispatch.duration(), 0);
    assert_eq!(dispatch.handle(), 8);
    for i in 0..10 {
        assert!(dispatch.complete(i, handled(i)));
    }
    assert!(matches!(dispatch.conclude(), Some(Ok(()))));
}

#[test]
fn the_invoker_admits_one_caller_at_a_time() {
    let mut invoker = Invoker::new();
    assert!(!invoker.is_busy());
    assert!(invoker.enter());
    assert!(invoker.is_busy());
    assert!(!invoker.enter());
    assert!(!invoker.enter());
    assert!(invoker.is_busy());
    assert_eq!(invoker.completed(), 0);
    let outcome = invoker.leave(Ok("done".to_string()));
    assert!(matches!(outcome, Some(Outcome::Handled(text)) if text == "done"));
    assert!(!invoker.is_busy());
    assert_eq!(invoker.completed(), 1);
    assert_eq!(invoker.trapped(), 0);
    assert!(invoker.enter());
}

#[test]
fn leaving_without_entering_changes_nothing() {
    let mut invoker = Invoker::new();
    assert!(invoker.leave(Ok(String::new())).is_none());
    assert!(invoker.leave(Err(String::new())).is_none());
    assert_eq!(invoker.completed(), 0);
    assert_eq!(invoker.trapped(), 0);
    assert!(!invoker.is_busy());
}

#[test]
fn a_trap_does_not_shut_the_guest() {
    let mut invoker = Invoker::new();
    assert!(invoker.enter());
    let outcome = invoker.leave(Err("out of fuel".to_string()));
    match outcome {
        Some(outcome) => {
            assert!(outcome.is_trap());
            assert!(matches!(outcome, Outcome::Trapped(message) if message == "out of fuel"));
        }
        None => panic!("the caller was inside"),
    }
    assert!(!invoker.is_busy());
    assert_eq!(invoker.completed(), 1);
    assert_eq!(invoker.trapped(), 1);
    assert!(invoker.enter());
    assert!(matches!(
        invoker.leave(Ok("fine".to_string())),
        Some(Outcome::Handled(_))
    ));
    assert_eq!(invoker.completed(), 2);
    assert_eq!(invoker.trapped(), 1);
}

#[test]
fn ten_units_through_one_invoker_are_serialized_and_counted() {
    let mut invoker = Invoker::new();
    let mut dispatch = Dispatch::new(0, 5);
    let labels = dispatch.labels();
    for (ordinal, label) in labels.into_iter().enumerate() {
        assert!(invoker.enter());
        assert!(!invoker.enter());
        let result = if ordinal == 6 {
            Err("trap".to_string())
        } else {
            Ok(EventHandler::event_handler(label))
        };
        let outcome = invoker.leave(result).unwrap();
        assert!(dispatch.complete(ordinal, outcome));
    }
    assert_eq!(invoker.completed(), 10);
    assert_eq!(invoker.trapped(), 1);
    assert_eq!(dispatch.completed(), 10);
    assert!(matches!(dispatch.conclude(), Some(Err(_))));
}

#[test]
fn the_guest_handler_says_what_it_handled() {
    assert_eq!(
        EventHandler::event_handler("event-3".to_string()),
        "this event event-3 has been handled"
    );
    assert_eq!(
        EventHandler::event_handler(String::new()),
        "this event  has been handled"
    );
}

#[test]
fn the_host_service_announces_itself() {
    let mut host = ExecHost::default();
    assert_eq!(host.exec(), "executing in the host...");
}

#[test]
fn error_debug_string_quotes_the_message() {
    let error = Error::new("boom");
    assert_eq!(error.debug_string(), "Error::ErrorWithDescription(\"boom\")");
    let tricky = Error::new("say \"hi\"\n");
    assert_eq!(
        tricky.debug_string(),
        "Error::ErrorWithDescription(\"say \\\"hi\\\"\\n\")"
    );
    assert_eq!(Error::debug_frame("x"), "Error::ErrorWithDescription(x)");
    let copy = tricky.clone();
    assert_eq!(copy.description(), "say \"hi\"\n");
}

#[test]
fn observable_debug_string_quotes_both_fields() {
    let ob = Observable { rd: "a", key: "k\t1" };
    assert_eq!(ob.debug_string(), "Observable { rd: \"a\", key: \"k\\t1\" }");
    assert_eq!(
        Observable::debug_frame("1", "2"),
        "Observable { rd: 1, key: 2 }"
    );
}
