use swiper::equality::same_text;
use swiper::error::PreemptionError;
use swiper::requirement::{Claim, RequirementInfo};
use swiper::thief::ThiefInfo;

#[test]
fn a_known_incoming_task_is_named() {
    let error = PreemptionError {
        incoming: Some(ThiefInfo { name: "minus_1" }),
        outgoing: ThiefInfo { name: "plus_5" },
        requirement: RequirementInfo { name: "test" },
    };
    assert_eq!(
        error.to_string(),
        "outgoing task Thief { name: plus_5 }  was preempted by incoming task Thief { name: minus_1 }  stealing its requirement Requirement { name: test } "
    );
}

#[test]
fn an_unknown_incoming_task_is_said_to_be_unknown() {
    let error = PreemptionError {
        incoming: None,
        outgoing: ThiefInfo { name: "plus_5" },
        requirement: RequirementInfo { name: "test" },
    };
    assert_eq!(
        error.to_string(),
        "outgoing task Thief { name: plus_5 }  was preempted by an unknown incoming task stealing its requirement Requirement { name: test } "
    );
}

#[test]
fn errors_are_equal_by_their_three_fields() {
    let error = PreemptionError {
        incoming: Some(ThiefInfo { name: "b" }),
        outgoing: ThiefInfo { name: "a" },
        requirement: RequirementInfo { name: "r" },
    };
    assert_eq!(error, error.clone());
    assert_ne!(error, PreemptionError { incoming: None, ..error });
    assert_ne!(error, PreemptionError { outgoing: ThiefInfo { name: "b" }, ..error });
    assert_ne!(error, PreemptionError { requirement: RequirementInfo { name: "s" }, ..error });
}

#[test]
fn names_are_compared_as_texts() {
    assert!(same_text("", ""));
    assert!(same_text("plus_5", "plus_5"));
    assert!(!same_text("plus_5", "plus_6"));
    assert!(!same_text("plus", "plus_5"));
    assert!(!same_text("plus_5", "plus"));
    assert!(same_text("tâche", "tâche"));
    assert!(!same_text("tâche", "tache"));
    let built = String::from("minus") + "_1";
    assert!(same_text(&built, "minus_1"));
}

#[test]
fn tokens_identities_and_claims_are_equal_by_what_they_hold() {
    assert_eq!(ThiefInfo { name: "a" }, ThiefInfo { name: "a" });
    assert_ne!(ThiefInfo { name: "a" }, ThiefInfo { name: "b" });
    assert_eq!(RequirementInfo { name: "r" }, RequirementInfo { name: "r" });
    assert_ne!(RequirementInfo { name: "r" }, RequirementInfo { name: "" });
    let claim = Claim { serial: 3, thief: ThiefInfo { name: "a" } };
    assert_eq!(claim, Claim { serial: 3, thief: ThiefInfo { name: "a" } });
    assert_ne!(claim, Claim { serial: 4, thief: ThiefInfo { name: "a" } });
    assert_ne!(claim, Claim { serial: 3, thief: ThiefInfo { name: "b" } });
}

#[test]
fn errors_with_and_without_an_incoming_task_differ() {
    let known = PreemptionError {
        incoming: Some(ThiefInfo { name: "b" }),
        outgoing: ThiefInfo { name: "a" },
        requirement: RequirementInfo { name: "r" },
    };
    let unknown = PreemptionError { incoming: None, ..known };
    assert_ne!(known, unknown);
    assert_ne!(unknown, known);
    assert_eq!(unknown, PreemptionError { incoming: None, ..known });
    assert_ne!(known, PreemptionError { incoming: Some(ThiefInfo { name: "c" }), ..known });
}
