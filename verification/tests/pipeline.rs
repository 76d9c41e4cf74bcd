use qioc::errors::Error;
use qioc::methods::Method;
use qioc::methods::Read;
use qioc::methods::Resolved;
use qioc::methods::Write;
use qioc::pipeline::Pipeline;
use qioc::pipeline::PipelineBuilder;
use qioc::reflect::Service;
use qioc::service::ServiceHandle;
use qioc::service::TypeTag;
use qioc::staged_ioc::StagedIoc;
use qioc::staged_ioc::StagedIocBuilder;

const NUMBER: TypeTag = TypeTag { id: 1 };
const TEXT: TypeTag = TypeTag { id: 2 };

fn key(name: &str) -> String {
    name.to_string()
}

fn stage_keys(pipeline: &Pipeline<String, i64>) -> Vec<String> {
    pipeline.stages().iter().map(|s| s.0.clone()).collect()
}

fn staged_keys(ioc: &StagedIoc<String, i64>) -> Vec<String> {
    ioc.stages().iter().map(|s| s.0.clone()).collect()
}

fn two_stages() -> Pipeline<String, i64> {
    let mut pipeline: Pipeline<String, i64> = Pipeline::new();
    pipeline.register_stage(0, key("S1"));
    pipeline.register_stage(1, key("S2"));
    pipeline.register_service(&key("S1"), key("x"), ServiceHandle::new(NUMBER, 1));
    pipeline.register_service(&key("S2"), key("y"), ServiceHandle::new(NUMBER, 2));
    pipeline
}

#[test]
fn search_ends_at_the_stage_that_holds_the_key() {
    let pipeline = two_stages();
    let x = Service { key: key("x"), tag: NUMBER };
    let y = Service { key: key("y"), tag: NUMBER };
    assert_eq!(*pipeline.read(&x).unwrap().get(), 1);
    assert_eq!(*pipeline.read(&y).unwrap().get(), 2);
    assert_eq!(pipeline.get_service(&key("x")).unwrap().tag(), NUMBER);
    assert!(pipeline.get_service(&key("z")).is_none());
    assert!(pipeline.get_stage(&key("S1")).unwrap().get_service(&key("x")).is_some());
    assert!(pipeline.get_stage(&key("S1")).unwrap().get_service(&key("y")).is_none());
    assert!(pipeline.get_stage(&key("S3")).is_none());
}

#[test]
fn removing_a_stage_removes_its_services() {
    let mut pipeline = two_stages();
    let x = Service { key: key("x"), tag: NUMBER };
    let y = Service { key: key("y"), tag: NUMBER };
    assert!(pipeline.unregister_stage(&key("S1")));
    assert!(!pipeline.unregister_stage(&key("S1")));
    assert!(matches!(pipeline.read(&x), Err(Error::NotFound { key }) if key == "x"));
    assert_eq!(*pipeline.read(&y).unwrap().get(), 2);
    assert_eq!(stage_keys(&pipeline), vec!["S2"]);
}

#[test]
fn a_key_lives_in_one_stage_only() {
    let mut pipeline = two_stages();
    pipeline.register_service(&key("S2"), key("x"), ServiceHandle::new(NUMBER, 20));
    let x = Service { key: key("x"), tag: NUMBER };
    assert_eq!(*pipeline.read(&x).unwrap().get(), 20);
    assert!(pipeline.get_stage(&key("S1")).unwrap().get_service(&key("x")).is_none());
    assert!(pipeline.get_stage(&key("S2")).unwrap().get_service(&key("x")).is_some());
    assert!(pipeline.unregister_stage(&key("S1")));
    assert_eq!(*pipeline.read(&x).unwrap().get(), 20);
    assert!(pipeline.unregister_service(&key("x")));
    assert!(!pipeline.unregister_service(&key("x")));
    assert!(matches!(pipeline.read(&x), Err(Error::NotFound { .. })));
}

#[test]
fn pipeline_checks_the_type_and_writes() {
    let pipeline = two_stages();
    let x = Service { key: key("x"), tag: NUMBER };
    let wrong = Service { key: key("x"), tag: TEXT };
    assert!(matches!(
        pipeline.read(&wrong),
        Err(Error::MismatchedType { expected: TEXT, found: NUMBER, .. })
    ));
    assert!(matches!(pipeline.write(&wrong), Err(Error::MismatchedType { .. })));
    *pipeline.write(&x).unwrap().get_mut() = 11;
    assert_eq!(*pipeline.read(&x).unwrap().get(), 11);
}

#[test]
fn stages_are_placed_and_replaced() {
    let mut builder: PipelineBuilder<String, i64> = PipelineBuilder::new();
    builder.register_stage_at_end(key("b"));
    builder.register_stage_at_begin(key("a"));
    builder.register_stage_at_end(key("d"));
    builder.register_stage_before(&key("d"), key("c"));
    builder.register_stage_after(&key("d"), key("e"));
    builder.stage(&key("c")).register_service(key("x"), ServiceHandle::new(NUMBER, 3));
    {
        let c = key("c");
        let mut at = builder.stage(&c);
        at.register(Service { key: key("y"), tag: TEXT }, 4);
        at.register_service(key("z"), ServiceHandle::new(TEXT, 5));
    }
    builder.register_stage_after(&key("a"), key("e"));
    builder.register_stage_before(&key("a"), key("d"));
    builder.register_stage_at_end(key("a"));
    let pipeline = builder.build();
    assert_eq!(stage_keys(&pipeline), vec!["d", "e", "b", "c", "a"]);
    assert_eq!(*pipeline.read(&Service { key: key("x"), tag: NUMBER }).unwrap().get(), 3);
    assert_eq!(*pipeline.read(&Service { key: key("y"), tag: TEXT }).unwrap().get(), 4);
    assert_eq!(*pipeline.read(&Service { key: key("z"), tag: TEXT }).unwrap().get(), 5);
}

#[test]
fn replacing_a_stage_empties_it() {
    let mut pipeline = two_stages();
    pipeline.register_stage(1, key("S1"));
    assert_eq!(stage_keys(&pipeline), vec!["S2", "S1"]);
    assert!(pipeline.get_service(&key("x")).is_none());
    assert!(pipeline.get_service(&key("y")).is_some());
}

#[test]
fn bulk_access_goes_stage_by_stage() {
    let mut pipeline: Pipeline<String, i64> = Pipeline::new();
    pipeline.register_stage(0, key("late"));
    pipeline.register_stage(0, key("early"));
    pipeline.register_service(&key("late"), key("a"), ServiceHandle::new(NUMBER, 1));
    pipeline.register_service(&key("late"), key("c"), ServiceHandle::new(NUMBER, 3));
    pipeline.register_service(&key("early"), key("z"), ServiceHandle::new(NUMBER, 26));
    pipeline.register_service(&key("early"), key("b"), ServiceHandle::new(NUMBER, 2));
    {
        let guards = pipeline.read_all().unwrap();
        let keys: Vec<&str> = guards.iter().map(|g| g.0.as_str()).collect();
        assert_eq!(keys, vec!["b", "z", "a", "c"]);
        let values: Vec<i64> = guards.iter().map(|g| *g.1.get()).collect();
        assert_eq!(values, vec![2, 26, 1, 3]);
    }
    {
        let mut guards = pipeline.write_all().unwrap();
        for guard in guards.iter_mut() {
            *guard.1.get_mut() += 100;
        }
    }
    assert_eq!(*pipeline.read(&Service { key: key("c"), tag: NUMBER }).unwrap().get(), 103);
}

#[test]
fn composite_request_on_a_pipeline() {
    let pipeline = two_stages();
    let method = Method::Tuple(vec![
        Method::Read(Read { key: key("y"), tag: NUMBER }),
        Method::Write(Write { key: key("x"), tag: NUMBER }),
    ]);
    match pipeline.invoke(&method).unwrap() {
        Resolved::Tuple(parts) => assert_eq!(parts.len(), 2),
        _ => panic!("a list is answered by a list"),
    };
    let failing = Method::Tuple(vec![
        Method::Write(Write { key: key("x"), tag: NUMBER }),
        Method::Read(Read { key: key("nowhere"), tag: NUMBER }),
    ]);
    match pipeline.invoke(&failing) {
        Err(Error::CompositeError { index: 1, cause }) => {
            assert!(matches!(*cause, Error::NotFound { key } if key == "nowhere"))
        },
        _ => panic!("a request for a missing key was answered"),
    };
    assert!(pipeline.write(&Service { key: key("x"), tag: NUMBER }).is_ok());
}

#[test]
fn staged_container_without_coordination() {
    let mut builder: StagedIocBuilder<String, i64> = StagedIocBuilder::new();
    builder.register_stage_at_begin(key("one"));
    builder.register_stage_after(&key("one"), key("two"));
    builder.at_stage(&key("one")).register_service(key("x"), ServiceHandle::new(NUMBER, 1));
    builder.at_stage(&key("two")).register_service(key("y"), ServiceHandle::new(TEXT, 2));
    let mut ioc = builder.build();
    assert_eq!(staged_keys(&ioc), vec!["one", "two"]);
    assert_eq!(ioc.position(&key("two")), Some(1));
    assert_eq!(ioc.position(&key("three")), None);
    assert_eq!(*ioc.read_service_base(&key("x")).unwrap().get(), 1);
    *ioc.write_service_base(&key("y")).unwrap().get_mut() = 22;
    assert_eq!(*ioc.read_service_base(&key("y")).unwrap().get(), 22);
    assert!(matches!(ioc.read_service_base(&key("q")), Err(Error::NotFound { .. })));
    assert!(matches!(ioc.write_service_base(&key("q")), Err(Error::NotFound { .. })));
    assert_eq!(ioc.read_all().unwrap().len(), 2);
    assert_eq!(ioc.write_all().unwrap().len(), 2);
    ioc.register_service(&key("two"), key("x"), ServiceHandle::new(NUMBER, 10));
    assert!(ioc.get_stage(&key("one")).unwrap().get_service(&key("x")).is_none());
    assert_eq!(*ioc.read_service_base(&key("x")).unwrap().get(), 10);
    assert!(ioc.unregister_service(&key("y")));
    assert!(ioc.get_service(&key("y")).is_none());
    assert!(ioc.unregister_stage(&key("two")));
    assert!(ioc.get_service(&key("x")).is_none());
    ioc.register_stage(0, key("zero"));
    assert_eq!(staged_keys(&ioc), vec!["zero", "one"]);
    let from = Pipeline::from_stages(ioc);
    assert_eq!(stage_keys(&from), vec!["zero", "one"]);
}

#[test]
fn a_stage_builder_chains() {
    let mut builder: PipelineBuilder<String, i64> = PipelineBuilder::new();
    builder.register_stage_at_end(key("only"));
    let only = key("only");
    builder
        .stage(&only)
        .register_service(key("x"), ServiceHandle::new(NUMBER, 1))
        .register(Service { key: key("y"), tag: TEXT }, 2)
        .register_service(key("z"), ServiceHandle::new(NUMBER, 3));
    let pipeline = builder.build();
    assert_eq!(*pipeline.read(&Service { key: key("x"), tag: NUMBER }).unwrap().get(), 1);
    assert_eq!(*pipeline.read(&Service { key: key("y"), tag: TEXT }).unwrap().get(), 2);
    assert_eq!(*pipeline.read(&Service { key: key("z"), tag: NUMBER }).unwrap().get(), 3);
}

#[test]
fn a_stage_next_to_itself_keeps_its_place() {
    let mut builder: PipelineBuilder<String, i64> = PipelineBuilder::new();
    builder.register_stage_at_end(key("a"));
    builder.register_stage_at_end(key("b"));
    builder.register_stage_at_end(key("c"));
    builder.stage(&key("b")).register_service(key("x"), ServiceHandle::new(NUMBER, 1));
    builder.register_stage_before(&key("b"), key("b"));
    assert!(builder.has_stage(&key("b")));
    builder.register_stage_after(&key("c"), key("c"));
    builder.register_stage_after(&key("a"), key("a"));
    let pipeline = builder.build();
    assert_eq!(stage_keys(&pipeline), vec!["a", "b", "c"]);
    assert!(pipeline.get_service(&key("x")).is_none());
}
