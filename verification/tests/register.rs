use qioc::names::name_before;
use qioc::names::same_name;
use qioc::register::GetSerectError;
use qioc::register::ServiceReflect;
use qioc::register::ServiceRegister;
use qioc::register::WiringOption;
use qioc::service::ServiceHandle;
use qioc::service::TypeTag;
use qioc::wiring::Wiring;

const FAST: TypeTag = TypeTag { id: 10 };
const SLOW: TypeTag = TypeTag { id: 20 };
const TIMING: TypeTag = TypeTag { id: 30 };

fn strategy() -> ServiceRegister<&'static str> {
    let mut reg: ServiceRegister<&'static str> = ServiceRegister::new();
    reg.add_option("Strategy".to_string());
    reg.add_alternative("Strategy", "Fast".to_string(), ServiceHandle::new(FAST, "fast"));
    reg.add_alternative("Strategy", "Slow".to_string(), ServiceHandle::new(SLOW, "slow"));
    reg.add_single("Timing".to_string(), ServiceHandle::new(TIMING, "timing"));
    reg
}

fn as_fast() -> ServiceReflect {
    ServiceReflect { option_name: "Strategy", tag: FAST }
}

fn as_slow() -> ServiceReflect {
    ServiceReflect { option_name: "Strategy", tag: SLOW }
}

#[test]
fn fresh_option_is_missing_wiring() {
    let mut reg: ServiceRegister<&'static str> = ServiceRegister::new();
    reg.add_option("Strategy".to_string());
    assert!(matches!(
        reg.services().get(&as_fast()),
        Err(GetSerectError::MissingWiring("Strategy"))
    ));
    assert!(reg.services().get_service("Strategy").is_none());
    let reg = strategy();
    assert!(matches!(
        reg.services().get(&as_slow()),
        Err(GetSerectError::MissingWiring("Strategy"))
    ));
    assert!(reg.services().iter().len() == 1);
}

#[test]
fn wiring_switches_between_alternatives() {
    let mut reg = strategy();
    reg.wire_alternative("Strategy", "Fast");
    assert_eq!(*reg.services().get(&as_fast()).unwrap(), "fast");
    assert!(matches!(reg.services().get(&as_slow()), Err(GetSerectError::NotFound("Strategy"))));
    reg.wire_alternative("Strategy", "Slow");
    assert!(matches!(reg.services().get(&as_fast()), Err(GetSerectError::NotFound("Strategy"))));
    assert_eq!(*reg.services().get(&as_slow()).unwrap(), "slow");
    assert_eq!(*reg.services().get_service("Strategy").unwrap(), "slow");
}

#[test]
fn wiring_again_is_no_change() {
    let mut reg = strategy();
    reg.wire_alternative("Strategy", "Fast");
    reg.wire_alternative("Strategy", "Fast");
    assert_eq!(*reg.services().get(&as_fast()).unwrap(), "fast");
    match reg.services().get_option("Strategy").unwrap() {
        WiringOption::Multi { wired, alternatives } => {
            assert_eq!(*wired, Some(0));
            assert_eq!(alternatives.len(), 2);
            assert_eq!(alternatives[0].0, "Fast");
            assert_eq!(alternatives[1].0, "Slow");
        },
        WiringOption::Single(_) => panic!("the option has alternatives"),
    }
}

#[test]
fn adding_an_alternative_keeps_the_wiring() {
    let mut reg = strategy();
    reg.wire_alternative("Strategy", "Slow");
    reg.add_alternative("Strategy", "Other".to_string(), ServiceHandle::new(FAST, "other"));
    assert_eq!(*reg.services().get(&as_slow()).unwrap(), "slow");
    reg.wire_alternative("Strategy", "Other");
    assert_eq!(*reg.services().get(&as_fast()).unwrap(), "other");
}

#[test]
fn missing_option_and_single_mismatch() {
    let reg = strategy();
    let nowhere = ServiceReflect { option_name: "Nowhere", tag: FAST };
    assert!(matches!(reg.services().get(&nowhere), Err(GetSerectError::NotFound("Nowhere"))));
    let timing = ServiceReflect { option_name: "Timing", tag: TIMING };
    assert_eq!(*reg.services().get(&timing).unwrap(), "timing");
    let wrong = ServiceReflect { option_name: "Timing", tag: FAST };
    match reg.services().get(&wrong) {
        Err(GetSerectError::TypeMismatch { option_name, expected, found }) => {
            assert_eq!(option_name, "Timing");
            assert_eq!(expected, FAST);
            assert_eq!(found, TIMING);
        },
        _ => panic!("a single service was seen through another type"),
    }
    assert!(matches!(
        GetSerectError::type_mismatch(&wrong, TIMING),
        GetSerectError::TypeMismatch { option_name: "Timing", expected: FAST, found: TIMING }
    ));
    assert!(reg.services().has_option("Timing"));
    assert!(!reg.services().has_option("timing"));
    assert!(reg.services().get_option("Nowhere").is_none());
    assert!(reg.services().get_service("Nowhere").is_none());
    assert_eq!(*reg.services().get_service("Timing").unwrap(), "timing");
}

#[test]
fn values_change_through_mutable_access() {
    let mut reg = strategy();
    reg.wire_alternative("Strategy", "Fast");
    *reg.services_mut().get_mut(&as_fast()).unwrap() = "faster";
    assert_eq!(*reg.services().get(&as_fast()).unwrap(), "faster");
    assert!(matches!(
        reg.services_mut().get_mut(&as_slow()),
        Err(GetSerectError::NotFound("Strategy"))
    ));
    *reg.services_mut().get_service_mut("Timing").unwrap() = "later";
    assert!(reg.services_mut().get_service_mut("Nowhere").is_none());
    reg.wire_alternative("Strategy", "Slow");
    assert_eq!(*reg.services().get(&as_slow()).unwrap(), "slow");
    reg.wire_alternative("Strategy", "Fast");
    assert_eq!(*reg.services().get(&as_fast()).unwrap(), "faster");
    let services = reg.into_services();
    assert_eq!(*services.get_service("Timing").unwrap(), "later");
}

#[test]
fn wired_services_are_listed_in_order() {
    let mut reg = strategy();
    assert_eq!(reg.services().iter(), vec![("Timing", &"timing")]);
    reg.wire_alternative("Strategy", "Slow");
    assert_eq!(reg.services().iter(), vec![("Strategy", &"slow"), ("Timing", &"timing")]);
    reg.add_option("Empty".to_string());
    assert_eq!(reg.services().iter().len(), 2);
}

#[test]
fn option_by_itself() {
    let mut option: WiringOption<i32> = WiringOption::new();
    assert!(!option.has_alternative("a"));
    assert!(option.service().is_none());
    assert!(option.service_mut().is_none());
    option.add_alternative("a".to_string(), ServiceHandle::new(FAST, 1));
    option.add_alternative("b".to_string(), ServiceHandle::new(SLOW, 2));
    assert!(option.has_alternative("a"));
    assert!(option.has_alternative("b"));
    assert!(!option.has_alternative("c"));
    assert_eq!(option.position("b"), Some(1));
    assert_eq!(option.position("c"), None);
    assert!(option.service().is_none());
    option.wire_alternative("b");
    assert_eq!(option.service().unwrap().value, 2);
    assert_eq!(option.service().unwrap().tag, SLOW);
    *option.service_mut().unwrap() = 3;
    assert_eq!(option.service().unwrap().value, 3);
    option.wire_alternative("a");
    assert_eq!(option.service().unwrap().value, 1);
    let mut single = WiringOption::Single(ServiceHandle::new(TIMING, 9));
    assert!(!single.has_alternative("a"));
    assert_eq!(single.service().unwrap().value, 9);
    *single.service_mut().unwrap() = 10;
    assert_eq!(single.service().unwrap().value, 10);
}

#[test]
fn saved_wiring_is_applied() {
    let mut reg = strategy();
    reg.add_option("Render".to_string());
    reg.add_alternative("Render", "Soft".to_string(), ServiceHandle::new(FAST, "soft"));
    let mut wiring = Wiring::new();
    assert_eq!(wiring.len(), 0);
    wiring.set("Strategy".to_string(), "Fast".to_string());
    wiring.set("Render".to_string(), "Soft".to_string());
    wiring.set("Strategy".to_string(), "Slow".to_string());
    assert_eq!(wiring.len(), 2);
    assert_eq!(wiring.pair(0), ("Render", "Soft"));
    assert_eq!(wiring.pair(1), ("Strategy", "Slow"));
    assert_eq!(wiring.get("Strategy"), Some("Slow"));
    assert_eq!(wiring.get("Timing"), None);
    assert!(wiring.applies_to(&reg));
    wiring.apply(&mut reg);
    assert_eq!(*reg.services().get(&as_slow()).unwrap(), "slow");
    assert_eq!(*reg.services().get_service("Render").unwrap(), "soft");
    let mut bad = Wiring::new();
    bad.set("Strategy".to_string(), "Medium".to_string());
    assert!(!bad.applies_to(&reg));
    let mut worse = Wiring::new();
    worse.set("Timing".to_string(), "Fast".to_string());
    assert!(!worse.applies_to(&reg));
    let mut worst = Wiring::new();
    worst.set("Nowhere".to_string(), "Fast".to_string());
    assert!(!worst.applies_to(&reg));
    assert!(Wiring::new().applies_to(&reg));
}

#[test]
fn names_are_compared_as_text() {
    assert!(same_name("", ""));
    assert!(same_name("Strategy", "Strategy"));
    assert!(!same_name("Strategy", "strategy"));
    assert!(!same_name("Fast", "Faster"));
    assert!(!same_name("Faster", "Fast"));
    assert!(same_name("größe", "größe"));
    assert!(!same_name("größe", "grösse"));
}

#[test]
fn options_are_listed_by_ascending_name() {
    let mut reg: ServiceRegister<&'static str> = ServiceRegister::new();
    reg.add_single("b".to_string(), ServiceHandle::new(TIMING, "second"));
    reg.add_single("a".to_string(), ServiceHandle::new(TIMING, "first"));
    reg.add_option("ab".to_string());
    reg.add_alternative("ab", "only".to_string(), ServiceHandle::new(FAST, "between"));
    reg.add_single("Z".to_string(), ServiceHandle::new(TIMING, "capital"));
    reg.add_single("c".to_string(), ServiceHandle::new(TIMING, "third"));
    reg.add_option("aa".to_string());
    assert_eq!(
        reg.services().iter(),
        vec![("Z", &"capital"), ("a", &"first"), ("b", &"second"), ("c", &"third")]
    );
    reg.wire_alternative("ab", "only");
    assert_eq!(
        reg.services().iter(),
        vec![
            ("Z", &"capital"),
            ("a", &"first"),
            ("ab", &"between"),
            ("b", &"second"),
            ("c", &"third")
        ]
    );
    let services = reg.services();
    assert_eq!(services.len(), 6);
    let names: Vec<&str> = (0..services.len()).map(|i| services.name_at(i)).collect();
    assert_eq!(names, vec!["Z", "a", "aa", "ab", "b", "c"]);
}

#[test]
fn every_wired_service_is_reached_for_writing() {
    let mut reg = strategy();
    reg.wire_alternative("Strategy", "Fast");
    reg.add_option("Unwired".to_string());
    let mut seen = Vec::new();
    for i in 0..reg.services().len() {
        let name = reg.services().name_at(i).to_string();
        match reg.services_mut().wired_mut_at(i) {
            Some(value) => {
                seen.push((name, *value));
                *value = "changed";
            },
            None => assert_eq!(name, "Unwired"),
        }
    }
    assert_eq!(seen, vec![("Strategy".to_string(), "fast"), ("Timing".to_string(), "timing")]);
    assert_eq!(reg.services().iter(), vec![("Strategy", &"changed"), ("Timing", &"changed")]);
    reg.wire_alternative("Strategy", "Slow");
    assert_eq!(*reg.services().get_service("Strategy").unwrap(), "slow");
}

#[test]
fn names_are_ordered_as_text() {
    assert!(name_before("a", "b"));
    assert!(!name_before("b", "a"));
    assert!(!name_before("a", "a"));
    assert!(name_before("", "a"));
    assert!(!name_before("a", ""));
    assert!(!name_before("", ""));
    assert!(name_before("a", "ab"));
    assert!(!name_before("ab", "a"));
    assert!(name_before("Z", "a"));
    assert!(name_before("ab", "b"));
    assert!(name_before("z", "ä"));
    assert_eq!(name_before("größe", "grösse"), "größe" < "grösse");
}

#[test]
fn a_wiring_is_copied_and_shown() {
    let mut wiring = Wiring::new();
    wiring.set("Strategy".to_string(), "Fast".to_string());
    let copy = wiring.clone();
    wiring.set("Strategy".to_string(), "Slow".to_string());
    assert_eq!(copy.get("Strategy"), Some("Fast"));
    assert_eq!(wiring.get("Strategy"), Some("Slow"));
    assert!(format!("{:?}", copy).contains("Fast"));
}
