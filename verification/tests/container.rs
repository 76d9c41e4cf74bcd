use qioc::container::Container;
use qioc::container::ContainerBuilder;
use qioc::errors::or_err;
use qioc::errors::Error;
use qioc::errors::LockFailure;
use qioc::ioc::Ioc;
use qioc::ioc::IocBuilder;
use qioc::methods::Method;
use qioc::methods::Read;
use qioc::methods::Resolved;
use qioc::methods::Write;
use qioc::reflect::Service;
use qioc::service::ServiceCell;
use qioc::service::ServiceHandle;
use qioc::service::TypeTag;

const NUMBER: TypeTag = TypeTag { id: 1 };
const TEXT: TypeTag = TypeTag { id: 2 };

fn key(name: &str) -> String {
    name.to_string()
}

fn sample() -> Container<String, i64> {
    let mut cont: Container<String, i64> = Container::new();
    cont.register_service(key("x"), ServiceHandle::new(NUMBER, 41))
        .register_service(key("y"), ServiceHandle::new(TEXT, 7));
    cont
}

#[test]
fn registered_value_is_read_back() {
    let cont = sample();
    let x = key("x");
    let guard = cont.read_service(&x, NUMBER).unwrap();
    assert_eq!(*guard.get(), 41);
    assert_eq!(guard.tag(), NUMBER);
}

#[test]
fn unregistered_key_is_not_found() {
    let mut cont = sample();
    let x = key("x");
    assert!(cont.unregister_service(&x));
    assert!(!cont.unregister_service(&x));
    match cont.read_service(&x, NUMBER) {
        Err(Error::NotFound { key }) => assert_eq!(key, "x"),
        _ => panic!("a removed service was found"),
    };
    let y = key("y");
    assert_eq!(*cont.read_service(&y, TEXT).unwrap().get(), 7);
}

#[test]
fn missing_key_is_not_found_for_every_access() {
    let cont = sample();
    let z = key("z");
    assert!(matches!(cont.read_service_base(&z), Err(Error::NotFound { key }) if key == "z"));
    assert!(matches!(cont.write_service_base(&z), Err(Error::NotFound { key }) if key == "z"));
    assert!(matches!(cont.try_read_service_base(&z), Err(Error::NotFound { key }) if key == "z"));
    assert!(matches!(cont.try_write_service_base(&z), Err(Error::NotFound { key }) if key == "z"));
    assert!(matches!(cont.write_service(&z, NUMBER), Err(Error::NotFound { key }) if key == "z"));
    assert!(matches!(cont.try_read_service(&z, NUMBER), Err(Error::NotFound { key }) if key == "z"));
    assert!(matches!(cont.try_write_service(&z, NUMBER), Err(Error::NotFound { key }) if key == "z"));
    assert!(cont.get_service(&z).is_none());
}

#[test]
fn other_type_is_a_mismatch_with_both_tags() {
    let cont = sample();
    let x = key("x");
    match cont.read_service(&x, TEXT) {
        Err(Error::MismatchedType { key, expected, found }) => {
            assert_eq!(key, "x");
            assert_eq!(expected, TEXT);
            assert_eq!(found, NUMBER);
        },
        _ => panic!("a service was seen through another type"),
    };
    assert!(matches!(
        cont.write_service(&x, TEXT),
        Err(Error::MismatchedType { expected: TEXT, found: NUMBER, .. })
    ));
    assert!(matches!(
        cont.try_read_service(&x, TEXT),
        Err(Error::MismatchedType { expected: TEXT, found: NUMBER, .. })
    ));
    assert!(matches!(
        cont.try_write_service(&x, TEXT),
        Err(Error::MismatchedType { expected: TEXT, found: NUMBER, .. })
    ));
}

#[test]
fn mismatch_releases_the_lock() {
    let cont = sample();
    let x = key("x");
    assert!(cont.write_service(&x, TEXT).is_err());
    assert!(cont.try_write_service(&x, NUMBER).is_ok());
}

#[test]
fn write_changes_what_is_read() {
    let cont = sample();
    let x = key("x");
    {
        let mut guard = cont.write_service(&x, NUMBER).unwrap();
        assert_eq!(*guard.get(), 41);
        *guard.get_mut() = 42;
        assert_eq!(guard.tag(), NUMBER);
    }
    assert_eq!(*cont.read_service(&x, NUMBER).unwrap().get(), 42);
}

#[test]
fn readers_share_and_a_writer_excludes() {
    let cont = sample();
    let x = key("x");
    let y = key("y");
    {
        let first = cont.try_read_service(&x, NUMBER).unwrap();
        let second = cont.try_read_service(&x, NUMBER).unwrap();
        let third = cont.read_service(&x, NUMBER).unwrap();
        assert_eq!(*first.get() + *second.get() + *third.get(), 123);
        assert!(matches!(
            cont.try_write_service(&x, NUMBER),
            Err(Error::WouldBlock { key }) if key == "x"
        ));
        assert!(matches!(cont.try_write_service_base(&x), Err(Error::WouldBlock { .. })));
        assert!(cont.try_write_service(&y, TEXT).is_ok());
    }
    {
        let writer = cont.try_write_service(&x, NUMBER).unwrap();
        assert!(matches!(
            cont.try_read_service(&x, NUMBER),
            Err(Error::WouldBlock { key }) if key == "x"
        ));
        assert!(matches!(cont.try_read_service_base(&x), Err(Error::WouldBlock { .. })));
        assert!(matches!(cont.try_write_service(&x, NUMBER), Err(Error::WouldBlock { .. })));
        assert_eq!(*writer.get(), 41);
    }
    assert!(cont.try_write_service(&x, NUMBER).is_ok());
}

#[test]
fn register_replaces_and_touches_no_other_key() {
    let mut cont = sample();
    cont.register_service(key("x"), ServiceHandle::new(TEXT, 5));
    let x = key("x");
    let y = key("y");
    assert_eq!(cont.services().len(), 2);
    assert_eq!(cont.get_service(&x).unwrap().tag(), TEXT);
    assert_eq!(*cont.read_service(&x, TEXT).unwrap().get(), 5);
    assert_eq!(*cont.read_service(&y, TEXT).unwrap().get(), 7);
}

#[test]
fn typed_shortcuts_follow_the_description() {
    let mut cont: Container<String, i64> = Container::new();
    cont.register(Service { key: key("a"), tag: NUMBER }, 3);
    cont.register_default(Service { key: key("b"), tag: TEXT });
    let a = Service { key: key("a"), tag: NUMBER };
    let b = Service { key: key("b"), tag: TEXT };
    let wrong = Service { key: key("a"), tag: TEXT };
    assert_eq!(*cont.read(&a).unwrap().get(), 3);
    assert_eq!(*cont.read(&b).unwrap().get(), 0);
    assert_eq!(*cont.try_read(&a).unwrap().get(), 3);
    *cont.write(&a).unwrap().get_mut() = 4;
    *cont.try_write(&b).unwrap().get_mut() = 9;
    assert_eq!(*cont.read(&a).unwrap().get(), 4);
    assert_eq!(*cont.read(&b).unwrap().get(), 9);
    assert!(matches!(cont.read(&wrong), Err(Error::MismatchedType { .. })));
}

#[test]
fn builders_build_what_was_registered() {
    let mut builder: ContainerBuilder<String, i64> = ContainerBuilder::new();
    builder
        .register_service(key("x"), ServiceHandle::new(NUMBER, 1))
        .register(Service { key: key("y"), tag: TEXT }, 2)
        .register_default(Service { key: key("z"), tag: NUMBER });
    let cont = builder.build();
    assert_eq!(cont.services().len(), 3);
    assert_eq!(*cont.read_service(&key("x"), NUMBER).unwrap().get(), 1);
    assert_eq!(*cont.read_service(&key("y"), TEXT).unwrap().get(), 2);
    assert_eq!(*cont.read_service(&key("z"), NUMBER).unwrap().get(), 0);

    let mut plain: IocBuilder<String, i64> = IocBuilder::new();
    plain
        .register_service(key("x"), ServiceHandle::new(NUMBER, 1))
        .register(Service { key: key("y"), tag: TEXT }, 2);
    let ioc = plain.build();
    assert_eq!(ioc.services().len(), 2);
    assert_eq!(*ioc.read_service_base(&key("y")).unwrap().get(), 2);
}

#[test]
fn plain_container_serves_every_type() {
    let mut ioc: Ioc<String, i64> = Ioc::new();
    ioc.register_service(key("x"), ServiceHandle::new(NUMBER, 10));
    let x = key("x");
    let z = key("z");
    assert_eq!(*ioc.read_service_base(&x).unwrap().get(), 10);
    *ioc.write_service_base(&x).unwrap().get_mut() += 1;
    assert_eq!(*ioc.read_service_base(&x).unwrap().get(), 11);
    assert!(matches!(ioc.read_service_base(&z), Err(Error::NotFound { .. })));
    assert!(matches!(ioc.write_service_base(&z), Err(Error::NotFound { .. })));
    assert!(ioc.get_service(&x).is_some());
    assert!(ioc.unregister_service(&x));
    assert!(ioc.get_service(&x).is_none());
}

#[test]
fn bulk_access_goes_by_ascending_key() {
    let mut cont: Container<String, i64> = Container::new();
    cont.register_service(key("m"), ServiceHandle::new(NUMBER, 2))
        .register_service(key("z"), ServiceHandle::new(NUMBER, 3))
        .register_service(key("a"), ServiceHandle::new(TEXT, 1));
    {
        let guards = cont.read_all().unwrap();
        let keys: Vec<&str> = guards.iter().map(|g| g.0.as_str()).collect();
        assert_eq!(keys, vec!["a", "m", "z"]);
        let values: Vec<i64> = guards.iter().map(|g| *g.1.get()).collect();
        assert_eq!(values, vec![1, 2, 3]);
        assert_eq!(guards[0].1.tag(), TEXT);
        assert!(matches!(cont.try_write_service_base(&key("m")), Err(Error::WouldBlock { .. })));
    }
    {
        let mut guards = cont.write_all().unwrap();
        assert_eq!(guards.len(), 3);
        for guard in guards.iter_mut() {
            *guard.1.get_mut() *= 10;
        }
    }
    assert_eq!(*cont.read_service_base(&key("z")).unwrap().get(), 30);
    let empty: Container<String, i64> = Container::new();
    assert!(empty.read_all().unwrap().is_empty());
    assert!(empty.write_all().unwrap().is_empty());
}

#[test]
fn composite_request_is_answered_in_its_own_shape() {
    let cont = sample();
    let method = Method::Tuple(vec![
        Method::Read(Read { key: key("x"), tag: NUMBER }),
        Method::Tuple(vec![Method::Write(Write { key: key("y"), tag: TEXT })]),
        Method::Tuple(vec![]),
    ]);
    let answer = cont.resolve(&method).unwrap();
    match answer {
        Resolved::Tuple(mut parts) => {
            assert_eq!(parts.len(), 3);
            match parts.remove(0) {
                Resolved::Read(guard) => assert_eq!(*guard.get(), 41),
                _ => panic!("the first part is a read"),
            }
            match parts.remove(0) {
                Resolved::Tuple(mut inner) => match inner.remove(0) {
                    Resolved::Write(mut guard) => {
                        *guard.get_mut() = 8;
                    },
                    _ => panic!("the inner part is a write"),
                },
                _ => panic!("the second part is a list"),
            }
            match parts.remove(0) {
                Resolved::Tuple(inner) => assert!(inner.is_empty()),
                _ => panic!("the third part is a list"),
            }
        },
        _ => panic!("a list is answered by a list"),
    }
    assert_eq!(*cont.read_service(&key("y"), TEXT).unwrap().get(), 8);
}

#[test]
fn composite_request_fails_fast_with_the_position() {
    let cont = sample();
    let method = Method::Tuple(vec![
        Method::Write(Write { key: key("x"), tag: NUMBER }),
        Method::Read(Read { key: key("absent"), tag: NUMBER }),
        Method::Read(Read { key: key("y"), tag: NUMBER }),
    ]);
    match cont.resolve(&method) {
        Err(Error::CompositeError { index, cause }) => {
            assert_eq!(index, 1);
            assert!(matches!(*cause, Error::NotFound { key } if key == "absent"));
        },
        _ => panic!("a request for a missing key was answered"),
    };
    assert!(cont.try_write_service(&key("x"), NUMBER).is_ok());

    let nested = Method::Tuple(vec![
        Method::Read(Read { key: key("x"), tag: NUMBER }),
        Method::Tuple(vec![
            Method::Read(Read { key: key("y"), tag: TEXT }),
            Method::Read(Read { key: key("y"), tag: NUMBER }),
        ]),
    ]);
    match cont.try_resolve(&nested) {
        Err(Error::CompositeError { index: 1, cause }) => match *cause {
            Error::CompositeError { index: 1, cause } => assert!(matches!(
                *cause,
                Error::MismatchedType { expected: NUMBER, found: TEXT, .. }
            )),
            _ => panic!("the inner list names its own position"),
        },
        _ => panic!("a request for another type was answered"),
    };
    assert!(cont.try_write_service(&key("x"), NUMBER).is_ok());
    assert!(cont.try_write_service(&key("y"), TEXT).is_ok());
}

#[test]
fn try_resolve_reports_a_busy_service() {
    let cont = sample();
    let y = key("y");
    let held = cont.write_service(&y, TEXT).unwrap();
    let method = Method::Tuple(vec![
        Method::Read(Read::new(Service { key: key("x"), tag: NUMBER })),
        Method::Write(Write::new(Service { key: key("y"), tag: TEXT })),
    ]);
    match cont.try_resolve(&method) {
        Err(Error::CompositeError { index: 1, cause }) => {
            assert!(matches!(*cause, Error::WouldBlock { key } if key == "y"))
        },
        _ => panic!("a busy service was handed out"),
    };
    assert!(cont.try_write_service(&key("x"), NUMBER).is_ok());
    drop(held);
    assert!(cont.try_resolve(&method).is_ok());
    let single = Method::Read(Read { key: key("x"), tag: NUMBER });
    assert!(matches!(cont.resolve(&single), Ok(Resolved::Read(_))));
    assert!(matches!(single.resolve_unprotected(&cont), Ok(Resolved::Read(_))));
    assert!(matches!(single.try_resolve_unprotected(&cont), Ok(Resolved::Read(_))));
}

#[test]
fn lock_answers_become_container_answers() {
    let k = key("k");
    assert!(matches!(or_err(&k, Ok::<i32, LockFailure>(3)), Ok(3)));
    assert!(matches!(
        or_err(&k, Err::<i32, LockFailure>(LockFailure::Poisoned)),
        Err(Error::Poisoned { key }) if key == "k"
    ));
    assert!(matches!(
        or_err(&k, Err::<i32, LockFailure>(LockFailure::WouldBlock)),
        Err(Error::WouldBlock { key }) if key == "k"
    ));
    assert_eq!(LockFailure::from_poison(std::sync::PoisonError::new(1)), LockFailure::Poisoned);
    assert_eq!(
        LockFailure::from_try_lock(std::sync::TryLockError::Poisoned(
            std::sync::PoisonError::new(1)
        )),
        LockFailure::Poisoned
    );
    assert_eq!(
        LockFailure::from_try_lock(std::sync::TryLockError::<i32>::WouldBlock),
        LockFailure::WouldBlock
    );
    assert!(matches!(Error::from_failure(&k, LockFailure::Poisoned), Error::Poisoned { .. }));
    assert!(matches!(Error::from_failure(&k, LockFailure::WouldBlock), Error::WouldBlock { .. }));
}

#[test]
fn each_error_has_its_sentence() {
    let k = key("k");
    assert_eq!(Error::NotFound { key: &k }.description(), "Service could not be found");
    assert_eq!(
        Error::Poisoned { key: &k }.description(),
        "Service could not be aquired, mutex was poisoned"
    );
    assert_eq!(
        Error::WouldBlock { key: &k }.description(),
        "Service could not be aquired, mutex would block"
    );
    assert_eq!(
        Error::MismatchedType { key: &k, expected: NUMBER, found: TEXT }.description(),
        "Service is of wrong type"
    );
    let inner = Box::new(Error::NotFound { key: &k });
    assert_eq!(
        Error::CompositeError { index: 0, cause: inner }.description(),
        "Part of a composite request failed"
    );
}

#[test]
fn cell_locks_answer_without_a_container() {
    let cell = ServiceCell::new(ServiceHandle::new(NUMBER, 5i64));
    assert_eq!(cell.tag(), NUMBER);
    {
        let reader = cell.read().unwrap();
        assert_eq!(*reader.get(), 5);
        assert!(matches!(cell.try_write(), Err(LockFailure::WouldBlock)));
        assert!(cell.try_read().is_ok());
    }
    {
        let mut writer = cell.write().unwrap();
        *writer.get_mut() = 6;
        assert!(matches!(cell.try_read(), Err(LockFailure::WouldBlock)));
    }
    assert_eq!(*cell.try_read().unwrap().get(), 6);
    let k = key("k");
    assert!(cell.read().unwrap().expect_type(&k, NUMBER).is_ok());
    assert!(matches!(
        cell.write().unwrap().expect_type(&k, TEXT),
        Err(Error::MismatchedType { expected: TEXT, found: NUMBER, .. })
    ));
}

#[test]
fn a_request_never_waits_for_itself() {
    let cont = sample();
    let twice = Method::Tuple(vec![
        Method::Write(Write { key: key("x"), tag: NUMBER }),
        Method::Read(Read { key: key("x"), tag: NUMBER }),
    ]);
    match cont.resolve(&twice) {
        Err(Error::CompositeError { index: 1, cause }) => {
            assert!(matches!(*cause, Error::WouldBlock { key } if key == "x"))
        },
        _ => panic!("a service was handed out twice"),
    };
    assert!(cont.try_write_service(&key("x"), NUMBER).is_ok());
    let nested = Method::Tuple(vec![
        Method::Tuple(vec![Method::Read(Read { key: key("y"), tag: TEXT })]),
        Method::Tuple(vec![
            Method::Read(Read { key: key("x"), tag: NUMBER }),
            Method::Write(Write { key: key("y"), tag: TEXT }),
        ]),
    ]);
    match cont.resolve(&nested) {
        Err(Error::CompositeError { index: 1, cause }) => match *cause {
            Error::CompositeError { index: 1, cause } => {
                assert!(matches!(*cause, Error::WouldBlock { key } if key == "y"))
            },
            _ => panic!("the inner list names its own position"),
        },
        _ => panic!("a service was handed out twice"),
    };
    let shared = Method::Tuple(vec![
        Method::Read(Read { key: key("x"), tag: NUMBER }),
        Method::Read(Read { key: key("x"), tag: NUMBER }),
    ]);
    assert!(cont.resolve(&shared).is_ok());
    let mut taken: Vec<&String> = Vec::new();
    let single = Method::Read(Read { key: key("x"), tag: NUMBER });
    assert!(single.resolve_after(&cont, true, &mut taken).is_ok());
    assert_eq!(taken, vec!["x"]);
}

#[test]
fn what_a_lock_said_is_settled() {
    let lock = std::sync::RwLock::new(5);
    assert_eq!(*LockFailure::waited(lock.read()).unwrap(), 5);
    assert_eq!(*LockFailure::tried(lock.try_read()).unwrap(), 5);
    {
        let held = lock.read().unwrap();
        assert!(matches!(LockFailure::tried(lock.try_write()), Err(LockFailure::WouldBlock)));
        assert_eq!(*held, 5);
    }
    assert!(matches!(
        LockFailure::waited(Err::<i32, std::sync::PoisonError<i32>>(std::sync::PoisonError::new(1))),
        Err(LockFailure::Poisoned)
    ));
    assert!(matches!(
        LockFailure::tried(Err::<i32, std::sync::TryLockError<i32>>(
            std::sync::TryLockError::Poisoned(std::sync::PoisonError::new(1))
        )),
        Err(LockFailure::Poisoned)
    ));
    assert!(matches!(
        LockFailure::tried(Err::<i32, std::sync::TryLockError<i32>>(
            std::sync::TryLockError::WouldBlock
        )),
        Err(LockFailure::WouldBlock)
    ));
    assert!(matches!(LockFailure::tried(Ok::<i32, std::sync::TryLockError<i32>>(7)), Ok(7)));
    assert!(matches!(LockFailure::waited(Ok::<i32, std::sync::PoisonError<i32>>(7)), Ok(7)));
}

#[test]
fn the_first_failure_is_the_one_reported() {
    let cont = sample();
    let method = Method::Tuple(vec![
        Method::Read(Read { key: key("gone"), tag: NUMBER }),
        Method::Read(Read { key: key("missing"), tag: NUMBER }),
    ]);
    match cont.resolve(&method) {
        Err(Error::CompositeError { index, cause }) => {
            assert_eq!(index, 0);
            assert!(matches!(*cause, Error::NotFound { key } if key == "gone"));
        },
        _ => panic!("a request for a missing key was answered"),
    };
    match cont.try_resolve(&method) {
        Err(Error::CompositeError { index: 0, cause }) => {
            assert!(matches!(*cause, Error::NotFound { key } if key == "gone"))
        },
        _ => panic!("a request for a missing key was answered"),
    };
    let later = Method::Tuple(vec![
        Method::Read(Read { key: key("x"), tag: NUMBER }),
        Method::Read(Read { key: key("y"), tag: NUMBER }),
        Method::Read(Read { key: key("missing"), tag: NUMBER }),
    ]);
    match cont.resolve(&later) {
        Err(Error::CompositeError { index: 1, cause }) => {
            assert!(matches!(*cause, Error::MismatchedType { expected: NUMBER, found: TEXT, .. }))
        },
        _ => panic!("the first failure is at the second place"),
    };
}
