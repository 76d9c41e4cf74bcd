use qioc::container::Container;
use qioc::errors::Error;
use qioc::factory::wrap_made;
use qioc::factory::Create;
use qioc::factory::CreationError;
use qioc::factory::Factory;
use qioc::methods::Method;
use qioc::methods::Read;
use qioc::methods::Resolved;
use qioc::pipeline::Pipeline;
use qioc::reflect::Service;
use qioc::service::ServiceHandle;
use qioc::service::TypeTag;

const NUMBER: TypeTag = TypeTag { id: 1 };
const ADDER: TypeTag = TypeTag { id: 2 };

enum Part {
    Number(i64),
    Adder { limit: i64 },
}

impl Factory<Part, i64> for Part {
    type Error = String;

    fn create<'a>(&self, args: Resolved<'a, Part>) -> Result<i64, String> {
        let limit = match self {
            Part::Adder { limit } => *limit,
            Part::Number(_) => return Err("not a factory".to_string()),
        };
        let mut sum = 0;
        if let Resolved::Tuple(parts) = args {
            for part in parts.iter() {
                if let Resolved::Read(guard) = part {
                    if let Part::Number(n) = guard.get() {
                        sum += *n;
                    }
                }
            }
        }
        if sum > limit {
            Err(format!("{} is over {}", sum, limit))
        } else {
            Ok(sum)
        }
    }
}

fn key(name: &str) -> String {
    name.to_string()
}

fn parts(limit: i64) -> Container<String, Part> {
    let mut cont: Container<String, Part> = Container::new();
    cont.register_service(key("one"), ServiceHandle::new(NUMBER, Part::Number(1)))
        .register_service(key("two"), ServiceHandle::new(NUMBER, Part::Number(2)))
        .register_service(key("adder"), ServiceHandle::new(ADDER, Part::Adder { limit }));
    cont
}

fn request(names: &[&str]) -> Create<String> {
    Create {
        factory: Service { key: key("adder"), tag: ADDER },
        args: Method::Tuple(
            names.iter().map(|n| Method::Read(Read { key: key(n), tag: NUMBER })).collect(),
        ),
    }
}

#[test]
fn factory_makes_an_object_from_its_services() {
    let cont = parts(10);
    let req = request(&["one", "two"]);
    assert!(matches!(cont.create::<i64>(&req), Ok(3)));
    assert!(cont.try_write_service(&key("adder"), ADDER).is_ok());
    assert!(cont.try_write_service(&key("one"), NUMBER).is_ok());
}

#[test]
fn missing_factory_is_a_lock_error() {
    let mut cont = parts(10);
    cont.unregister_service(&key("adder"));
    let req = request(&["one"]);
    assert!(matches!(
        cont.create::<i64>(&req),
        Err(CreationError::LockError(Error::NotFound { key })) if key == "adder"
    ));
    let cont = parts(10);
    let wrong = Create { factory: Service { key: key("one"), tag: ADDER }, args: Method::Tuple(vec![]) };
    assert!(matches!(
        cont.create::<i64>(&wrong),
        Err(CreationError::LockError(Error::MismatchedType { expected: ADDER, found: NUMBER, .. }))
    ));
}

#[test]
fn missing_argument_is_a_dependency_error() {
    let cont = parts(10);
    let req = request(&["one", "three"]);
    match cont.create::<i64>(&req) {
        Err(CreationError::DependencyError { key, cause }) => {
            assert_eq!(key, "adder");
            match *cause {
                Error::CompositeError { index, cause } => {
                    assert_eq!(index, 1);
                    assert!(matches!(*cause, Error::NotFound { key } if key == "three"));
                },
                _ => panic!("the cause names a position"),
            }
        },
        _ => panic!("an object was made without its services"),
    };
    assert!(cont.try_write_service(&key("adder"), ADDER).is_ok());
    assert!(cont.try_write_service(&key("one"), NUMBER).is_ok());
}

#[test]
fn failing_factory_is_a_creation_error() {
    let cont = parts(2);
    let req = request(&["one", "two"]);
    match cont.create::<i64>(&req) {
        Err(CreationError::CreationError { key, error }) => {
            assert_eq!(key, "adder");
            assert_eq!(error, "3 is over 2");
        },
        _ => panic!("the factory did not fail"),
    };
    assert!(cont.try_write_service(&key("two"), NUMBER).is_ok());
}

#[test]
fn pipeline_makes_objects_too() {
    let mut pipeline: Pipeline<String, Part> = Pipeline::new();
    pipeline.register_stage(0, key("numbers"));
    pipeline.register_stage(1, key("factories"));
    pipeline.register_service(&key("numbers"), key("one"), ServiceHandle::new(NUMBER, Part::Number(1)));
    pipeline.register_service(
        &key("factories"),
        key("adder"),
        ServiceHandle::new(ADDER, Part::Adder { limit: 5 }),
    );
    let req = request(&["one", "one"]);
    assert!(matches!(pipeline.create::<i64>(&req), Ok(2)));
    let bad = request(&["two"]);
    assert!(matches!(
        pipeline.create::<i64>(&bad),
        Err(CreationError::DependencyError { .. })
    ));
}

#[test]
fn what_a_factory_returned_is_wrapped_with_its_key() {
    let k = key("maker");
    assert!(matches!(wrap_made(&k, Ok::<i32, String>(4)), Ok(4)));
    assert!(matches!(
        wrap_made(&k, Err::<i32, String>("no".to_string())),
        Err(CreationError::CreationError { key, error }) if key == "maker" && error == "no"
    ));
}

#[test]
fn a_factory_is_not_asked_for_while_it_works() {
    let cont = parts(10);
    let req = Create {
        factory: Service { key: key("adder"), tag: ADDER },
        args: Method::Tuple(vec![Method::Write(qioc::methods::Write { key: key("adder"), tag: ADDER })]),
    };
    match cont.create::<i64>(&req) {
        Err(CreationError::DependencyError { key, cause }) => {
            assert_eq!(key, "adder");
            match *cause {
                Error::CompositeError { index: 0, cause } => {
                    assert!(matches!(*cause, Error::WouldBlock { key } if key == "adder"))
                },
                _ => panic!("the cause names a position"),
            }
        },
        _ => panic!("the factory was handed out while held"),
    };
    assert!(cont.try_write_service(&key("adder"), ADDER).is_ok());
    let plain = request(&["one"]);
    assert!(matches!(plain.invoke::<Part, Container<String, Part>, i64>(&cont), Ok(1)));
}

#[test]
fn a_creation_error_is_shown() {
    let k = key("maker");
    let shown = format!("{:?}", wrap_made(&k, Err::<i32, String>("no".to_string())));
    assert!(shown.contains("CreationError"));
    assert!(shown.contains("maker"));
}
