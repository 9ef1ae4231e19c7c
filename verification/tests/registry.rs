use feo::registry::{TypeInfo, TypeRegistry};

#[derive(Debug, Clone, Copy, PartialEq)]
struct DummyBuilder(u32);

/// Types with a system name, used where no name is given at registration
trait SystemName {
    const NAME: &'static str;
}

struct TestType1;
struct TestType2;
struct TestType3;
struct Foo;

impl SystemName for TestType1 {
    const NAME: &'static str = "registry::TestType1";
}
impl SystemName for TestType2 {
    const NAME: &'static str = "registry::TestType2";
}
impl SystemName for TestType3 {
    const NAME: &'static str = "registry::TestType3";
}
impl SystemName for Foo {
    const NAME: &'static str = "registry::Foo";
}

fn register<T: SystemName>(registry: &mut TypeRegistry<DummyBuilder>, name: Option<&'static str>, builder: DummyBuilder) {
    let chosen = name.unwrap_or(T::NAME);
    assert!(!registry.contains(chosen), "type '{chosen}' already registered");
    registry.add(name, T::NAME, builder);
}

#[test]
fn test_type_registry() {
    let mut registry = TypeRegistry::new();
    register::<TestType1>(&mut registry, None, DummyBuilder(1));
    register::<TestType2>(&mut registry, None, DummyBuilder(2));
    register::<TestType3>(&mut registry, Some("my_test_type3_name"), DummyBuilder(3));

    // test presence and data of entry for TestType1
    let name = TestType1::NAME;
    assert!(registry.contains(name));
    assert!(registry.info_name(name).is_some());
    assert_eq!(registry.info_name(name).unwrap().name, name);

    // test presence and data of entry for TestType3
    let name = "my_test_type3_name";
    assert!(registry.contains(name));
    assert!(registry.info_name(name).is_some());
    assert_eq!(registry.info_name(name).unwrap().name, name);

    // test missing type Foo
    let name = Foo::NAME;
    assert!(!registry.contains(name));
    assert!(registry.info_name(name).is_none());
}

#[test]
fn registered_info_keeps_its_builder() {
    let mut registry = TypeRegistry::new();
    registry.add_helper(TypeInfo { name: "a".to_string(), comrec_builder: DummyBuilder(7) });
    registry.add_helper(TypeInfo { name: "b".to_string(), comrec_builder: DummyBuilder(8) });
    assert_eq!(registry.info_name("b").unwrap().comrec_builder, DummyBuilder(8));
    assert_eq!(registry.info_name("a").unwrap().comrec_builder, DummyBuilder(7));
}

#[test]
fn import_adds_all_types_of_the_other_registry() {
    let mut first = TypeRegistry::new();
    first.add_helper(TypeInfo { name: "x".to_string(), comrec_builder: DummyBuilder(1) });
    let mut second = TypeRegistry::new();
    second.add_helper(TypeInfo { name: "y".to_string(), comrec_builder: DummyBuilder(2) });
    second.add_helper(TypeInfo { name: "z".to_string(), comrec_builder: DummyBuilder(3) });
    first.import(second);
    assert!(first.contains("x"));
    assert!(first.contains("y"));
    assert_eq!(first.info_name("z").unwrap().comrec_builder, DummyBuilder(3));
    assert!(!first.contains("w"));
}

#[test]
fn default_registry_is_empty() {
    let registry: TypeRegistry<DummyBuilder> = TypeRegistry::default();
    assert!(registry.info_name("registry::TestType1").is_none());
    assert!(!registry.contains(""));
}

#[test]
fn add_uses_the_given_name_or_the_system_name() {
    let mut registry: TypeRegistry<DummyBuilder> = TypeRegistry::new();
    registry.add(None, "sys::A", DummyBuilder(1));
    registry.add(Some("b"), "sys::B", DummyBuilder(2));
    assert_eq!(registry.info_name("sys::A").unwrap().comrec_builder, DummyBuilder(1));
    assert_eq!(registry.info_name("b").unwrap().comrec_builder, DummyBuilder(2));
    assert!(!registry.contains("sys::B"));
}
