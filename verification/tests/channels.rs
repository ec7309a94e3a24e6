use block_weave::errors::RegistryError;
use block_weave::registry::{ChannelRegistry, ChannelType, ChannelValue};

#[test]
fn test_put_and_get() {
    let mut registry = ChannelRegistry::new();

    registry.put("test_key", 42i32);

    let value = registry.get::<i32>("test_key").unwrap();
    assert_eq!(value, 42);
}

#[test]
fn test_put_and_get_string() {
    let mut registry = ChannelRegistry::new();

    registry.put("message", "Hello, World!".to_string());

    let value = registry.get::<String>("message").unwrap();
    assert_eq!(value, "Hello, World!");
}

#[test]
fn test_get_nonexistent_key() {
    let registry = ChannelRegistry::new();

    let result = registry.get::<i32>("missing");
    assert_eq!(result, Err(RegistryError::KeyNotFound("missing".to_string())));
}

#[test]
fn test_get_wrong_type() {
    let mut registry = ChannelRegistry::new();

    registry.put("number", 42i32);

    let result = registry.get::<String>("number");
    match result {
        Err(RegistryError::TypeMismatch { key, .. }) => {
            assert_eq!(key, "number");
        }
        _ => panic!("Expected TypeMismatch error"),
    }
}

#[test]
fn test_ensure_new_key() {
    let mut registry = ChannelRegistry::new();

    let value = registry.ensure::<i32>("new_key").unwrap();
    assert_eq!(value, 0);

    let retrieved = registry.get::<i32>("new_key").unwrap();
    assert_eq!(retrieved, 0);
}

#[test]
fn test_ensure_existing_key() {
    let mut registry = ChannelRegistry::new();

    registry.put("existing", 42i32);

    let value = registry.ensure::<i32>("existing").unwrap();
    assert_eq!(value, 42);

    // Modify the channel.
    registry.write("existing", 100i32).unwrap();

    let retrieved = registry.get::<i32>("existing").unwrap();
    assert_eq!(retrieved, 100);
}

#[derive(Default, PartialEq, Debug)]
struct CustomStruct {
    value: i32,
}

impl ChannelType for CustomStruct {
    fn type_label() -> &'static str {
        "CustomStruct"
    }

    fn to_value(self) -> ChannelValue {
        ChannelValue::I32(self.value)
    }

    fn from_value(v: &ChannelValue) -> Option<CustomStruct> {
        match v {
            ChannelValue::I32(x) => Some(CustomStruct { value: *x }),
            _ => None,
        }
    }
}

#[test]
fn test_ensure_with_custom_default() {
    let mut registry = ChannelRegistry::new();

    let custom = registry.ensure::<CustomStruct>("custom").unwrap();
    assert_eq!(custom, CustomStruct { value: 0 });
}

#[test]
fn test_mutable_access() {
    let mut registry = ChannelRegistry::new();

    registry.put("counter", 0i32);

    let counter = registry.get::<i32>("counter").unwrap();
    registry.write("counter", counter + 1).unwrap();

    assert_eq!(registry.get::<i32>("counter").unwrap(), 1);

    let updated = registry.get::<i32>("counter").unwrap();
    assert_eq!(updated, 1);
}

#[test]
fn test_multiple_references() {
    let mut registry = ChannelRegistry::new();

    registry.put("shared", vec![1, 2, 3]);

    let ref1 = registry.get::<Vec<i32>>("shared").unwrap();
    let ref2 = registry.get::<Vec<i32>>("shared").unwrap();

    assert_eq!(ref1, vec![1, 2, 3]);
    assert_eq!(ref2, vec![1, 2, 3]);

    let mut changed = ref1;
    changed.push(4);
    registry.write("shared", changed).unwrap();

    assert_eq!(registry.get::<Vec<i32>>("shared").unwrap(), vec![1, 2, 3, 4]);
}

#[test]
fn has_reports_existing_channels() {
    let mut registry = ChannelRegistry::new();
    assert!(!registry.has("x"));
    registry.put("x", true);
    assert!(registry.has("x"));
    assert!(!registry.has("y"));
}

#[test]
fn put_replaces_value_of_other_type() {
    let mut registry = ChannelRegistry::new();
    registry.put("x", 1i32);
    registry.put("x", "text".to_string());
    assert_eq!(registry.get::<String>("x").unwrap(), "text");
    assert!(registry.get::<i32>("x").is_err());
}

#[test]
fn get_wrong_type_reports_expected_and_found() {
    let mut registry = ChannelRegistry::new();
    registry.put("flag", true);
    assert_eq!(
        registry.get::<u64>("flag"),
        Err(RegistryError::TypeMismatch {
            key: "flag".to_string(),
            expected: "u64",
            found: "unknown",
        })
    );
}

#[test]
fn ensure_existing_key_of_other_type_fails_and_keeps_value() {
    let mut registry = ChannelRegistry::new();
    registry.put("n", 5i32);
    assert_eq!(
        registry.ensure::<bool>("n"),
        Err(RegistryError::TypeMismatch {
            key: "n".to_string(),
            expected: "bool",
            found: "Unexpected Type",
        })
    );
    assert_eq!(registry.get::<i32>("n").unwrap(), 5);
}

#[test]
fn write_to_missing_channel_fails() {
    let mut registry = ChannelRegistry::new();
    assert_eq!(
        registry.write("nope", 1i32),
        Err(RegistryError::KeyNotFound("nope".to_string()))
    );
    assert!(!registry.has("nope"));
}

#[test]
fn write_of_other_type_fails_and_keeps_value() {
    let mut registry = ChannelRegistry::new();
    registry.put("n", 5i32);
    assert!(matches!(
        registry.write("n", true),
        Err(RegistryError::TypeMismatch { .. })
    ));
    assert_eq!(registry.get::<i32>("n").unwrap(), 5);
}

#[test]
fn read_after_put_gives_value_back_and_keeps_others() {
    let mut registry = ChannelRegistry::new();
    registry.put("a", 1u32);
    registry.put("b", 2u64);
    registry.put("a", 3u32);
    assert_eq!(registry.get::<u32>("a").unwrap(), 3);
    assert_eq!(registry.get::<u64>("b").unwrap(), 2);
}

#[test]
fn only_put_and_ensure_create_channels_and_nothing_removes_them() {
    let mut registry = ChannelRegistry::new();
    registry.put("a", 1i32);
    let created: Result<i64, RegistryError> = registry.ensure("b");
    assert_eq!(created, Ok(0));
    assert_eq!(registry.write("c", 5i32), Err(RegistryError::KeyNotFound("c".to_string())));
    assert!(!registry.has("c"));
    assert_eq!(registry.write("a", 2i32), Ok(()));
    let mismatch: Result<bool, RegistryError> = registry.ensure("a");
    assert!(mismatch.is_err());
    assert!(registry.has("a"));
    assert!(registry.has("b"));
    assert!(!registry.has("c"));
    assert_eq!(registry.get::<i32>("a"), Ok(2));
    assert_eq!(registry.get::<i32>("c"), Err(RegistryError::KeyNotFound("c".to_string())));
    assert!(!matches!(registry.get::<bool>("a"), Err(RegistryError::KeyNotFound(_))));
}
