use candela::descriptor::{Classification, Descriptor, DescriptorSet};

fn descriptor(name: &str, url: &str, classification: Classification) -> Descriptor {
    Descriptor { name: name.to_string(), url_template: url.to_string(), classification }
}

#[test]
fn new_set_is_empty() {
    let set = DescriptorSet::new();
    assert_eq!(set.len(), 0);
    assert!(set.descriptors().is_empty());
    assert_eq!(set.position(&"GitHub".to_string()), None);
}

#[test]
fn insert_appends_new_names_in_order() {
    let mut set = DescriptorSet::new();
    assert!(set.insert(descriptor("a", "https://a/{}", Classification::StatusCode)).is_none());
    assert!(set.insert(descriptor("b", "https://b/{}", Classification::Unsupported)).is_none());
    assert!(set.insert(descriptor("c", "https://c/{}", Classification::StatusCode)).is_none());
    assert_eq!(set.len(), 3);
    let names: Vec<&str> = set.descriptors().iter().map(|d| d.name.as_str()).collect();
    assert_eq!(names, vec!["a", "b", "c"]);
    assert_eq!(set.position(&"a".to_string()), Some(0));
    assert_eq!(set.position(&"b".to_string()), Some(1));
    assert_eq!(set.position(&"c".to_string()), Some(2));
    assert_eq!(set.position(&"d".to_string()), None);
}

#[test]
fn insert_replaces_a_descriptor_of_the_same_name() {
    let mut set = DescriptorSet::new();
    set.insert(descriptor("a", "https://a/{}", Classification::StatusCode));
    set.insert(descriptor("b", "https://b/{}", Classification::StatusCode));
    set.insert(descriptor("c", "https://c/{}", Classification::StatusCode));
    let replaced = set.insert(descriptor("b", "https://other/{}", Classification::Unsupported));
    let replaced = replaced.expect("the earlier descriptor is handed back");
    assert_eq!(replaced.name, "b");
    assert_eq!(replaced.url_template, "https://b/{}");
    assert_eq!(replaced.classification, Classification::StatusCode);
    assert_eq!(set.len(), 3);
    let items = set.descriptors();
    assert_eq!(items[0].name, "a");
    assert_eq!(items[1].name, "b");
    assert_eq!(items[1].url_template, "https://other/{}");
    assert_eq!(items[1].classification, Classification::Unsupported);
    assert_eq!(items[2].name, "c");
}

#[test]
fn names_stay_unique() {
    let mut set = DescriptorSet::new();
    for round in 0..3 {
        for name in ["x", "y", "z", "x", "y"] {
            set.insert(descriptor(name, &format!("https://{}/{}/{{}}", name, round), Classification::StatusCode));
        }
    }
    assert_eq!(set.len(), 3);
    let items = set.descriptors();
    for i in 0..items.len() {
        for j in (i + 1)..items.len() {
            assert_ne!(items[i].name, items[j].name);
        }
    }
    assert_eq!(items[0].url_template, "https://x/2/{}");
}

#[test]
fn names_are_compared_exactly() {
    let mut set = DescriptorSet::new();
    set.insert(descriptor("GitHub", "https://github.com/{}", Classification::StatusCode));
    assert!(set.insert(descriptor("github", "https://github.com/{}", Classification::StatusCode)).is_none());
    assert_eq!(set.len(), 2);
    assert_eq!(set.position(&"GitHub".to_string()), Some(0));
    assert_eq!(set.position(&"github".to_string()), Some(1));
    assert_eq!(set.position(&"GITHUB".to_string()), None);
}

#[test]
fn active_descriptors_are_those_read_by_status_code() {
    assert!(descriptor("a", "u", Classification::StatusCode).active());
    assert!(!descriptor("a", "u", Classification::Unsupported).active());
}
