use signalist::ids::{
    custom_webview_label, data_store_dir_name, format_shortcut_id, generate_shortcut_id, is_custom_label,
    is_data_store_dir_name, shortcut_id_to_data_store_id, validate_shortcut_id,
};
use signalist::shortcuts::normalize_color;
use signalist::sweep::{entry_data_store_dir_name, keep_names, should_remove_store};
use signalist::shortcuts::{CustomShortcut, CustomShortcuts, UserMessenger, UserMessengers};

#[test]
fn custom_label_prefixes_id() {
    assert_eq!(custom_webview_label("65f1a2b300001234"), "custom-65f1a2b300001234");
    assert_eq!(custom_webview_label(""), "custom-");
}

#[test]
fn custom_label_is_recognised() {
    assert!(is_custom_label(&custom_webview_label("abc")));
    assert!(is_custom_label("custom-"));
    assert!(!is_custom_label("telegram"));
    assert!(!is_custom_label("custom"));
    assert!(!is_custom_label("Custom-abc"));
}

#[test]
fn valid_ids_are_accepted() {
    assert_eq!(validate_shortcut_id("abc-DEF_123"), Ok(()));
    assert_eq!(validate_shortcut_id("x"), Ok(()));
}

#[test]
fn invalid_ids_are_refused() {
    assert_eq!(validate_shortcut_id(""), Err("Invalid id".to_string()));
    assert_eq!(validate_shortcut_id("a#b"), Err("Invalid id".to_string()));
    assert_eq!(validate_shortcut_id("a&b=c"), Err("Invalid id".to_string()));
    assert_eq!(validate_shortcut_id("über"), Err("Invalid id".to_string()));
    assert_eq!(validate_shortcut_id("a b"), Err("Invalid id".to_string()));
}

#[test]
fn ids_are_hex_of_the_time() {
    assert_eq!(format_shortcut_id(0x65f1_a2b3, 0x1234), "65f1a2b300001234");
    assert_eq!(format_shortcut_id(0, 0), "0000000000000000");
    assert_eq!(format_shortcut_id(0x1_0000_0000, 999_999_999), "1000000003b9ac9ff");
}

#[test]
fn generated_ids_are_valid() {
    let id = generate_shortcut_id();
    assert!(id.len() >= 16);
    assert_eq!(validate_shortcut_id(&id), Ok(()));
    assert!(id.chars().all(|c| c.is_ascii_hexdigit() && !c.is_ascii_uppercase()));
}

#[test]
fn data_store_id_reads_hex_pairs() {
    let id = shortcut_id_to_data_store_id("65f1a2b300001234");
    assert_eq!(id, [0x65, 0xf1, 0xa2, 0xb3, 0, 0, 0x12, 0x34, 0, 0, 0, 0, 0, 0, 0, 0]);
}

#[test]
fn data_store_id_edge_chunks() {
    // an odd last chunk is a single digit, "+d" is a signed digit, junk reads as 0
    assert_eq!(shortcut_id_to_data_store_id("abc"), [0xab, 0x0c, 0, 0, 0, 0, 0, 0, 0, 0, 0, 0, 0, 0, 0, 0]);
    assert_eq!(shortcut_id_to_data_store_id("+aZZAB"), [0x0a, 0, 0xab, 0, 0, 0, 0, 0, 0, 0, 0, 0, 0, 0, 0, 0]);
    assert_eq!(shortcut_id_to_data_store_id(""), [0u8; 16]);
    assert_eq!(shortcut_id_to_data_store_id("-1"), [0u8; 16]);
    // only the first sixteen bytes count
    let long = shortcut_id_to_data_store_id("0102030405060708090a");
    assert_eq!(long, [1, 2, 3, 4, 5, 6, 7, 8, 0, 0, 0, 0, 0, 0, 0, 0]);
}

#[test]
fn dir_name_is_uuid_shaped() {
    let mut id = [0u8; 16];
    id[0] = 1;
    id[15] = 1;
    assert_eq!(data_store_dir_name(id), "01000000-0000-0000-0000-000000000001");
    let id: [u8; 16] = [0xde, 0xad, 0xbe, 0xef, 0, 1, 2, 3, 4, 5, 6, 7, 8, 9, 0xab, 0xcd];
    assert_eq!(data_store_dir_name(id), "deadbeef-0001-0203-0405-06070809abcd");
}

#[test]
fn dir_names_are_recognised() {
    assert!(is_data_store_dir_name(&data_store_dir_name([7u8; 16])));
    assert!(is_data_store_dir_name("01000000-0000-0000-0000-000000000002"));
    assert!(!is_data_store_dir_name("01000000-0000-0000-0000-00000000000A"));
    assert!(!is_data_store_dir_name("0100000-00000-0000-0000-000000000002"));
    assert!(!is_data_store_dir_name("01000000-0000-0000-0000-000000000002-x"));
    assert!(!is_data_store_dir_name("01000000-0000-0000-0000"));
    assert!(!is_data_store_dir_name(".DS_Store"));
}

#[test]
fn colors_are_normalized() {
    assert_eq!(normalize_color(None), Ok(None));
    assert_eq!(normalize_color(Some("   ".to_string())), Ok(None));
    assert_eq!(normalize_color(Some("".to_string())), Ok(None));
    assert_eq!(normalize_color(Some(" #AaBbCc\n".to_string())), Ok(Some("#aabbcc".to_string())));
    assert_eq!(normalize_color(Some("#0f0f0f".to_string())), Ok(Some("#0f0f0f".to_string())));
}

#[test]
fn bad_colors_are_refused() {
    assert_eq!(
        normalize_color(Some("red".to_string())),
        Err("Invalid color: red (expected #rrggbb)".to_string())
    );
    assert_eq!(
        normalize_color(Some(" #12345g".to_string())),
        Err("Invalid color:  #12345g (expected #rrggbb)".to_string())
    );
    assert_eq!(
        normalize_color(Some("#fff".to_string())),
        Err("Invalid color: #fff (expected #rrggbb)".to_string())
    );
}

#[test]
fn normalized_color_normalizes_to_itself() {
    let once = normalize_color(Some("\t#ABCDEF ".to_string())).unwrap();
    assert_eq!(normalize_color(once.clone()), Ok(once));
}

fn shortcut(id: &str) -> CustomShortcut {
    CustomShortcut { id: id.to_string(), name: format!("n{}", id), url: "https://example.com".to_string(), icon: None, color: None }
}

#[test]
fn sweep_keeps_every_current_store() {
    let shortcuts = CustomShortcuts(vec![shortcut("65f1a2b300001234")]);
    let users = UserMessengers(vec![UserMessenger {
        id: "0000000100000002".to_string(),
        name: "Slack".to_string(),
        url: "https://app.slack.com".to_string(),
        icon: None,
        preload: false,
    }]);
    let keep = keep_names(&shortcuts, &users);
    assert_eq!(keep.len(), 4);
    assert_eq!(keep[0], "01000000-0000-0000-0000-000000000001");
    assert_eq!(keep[1], "01000000-0000-0000-0000-000000000002");
    assert_eq!(keep[2], entry_data_store_dir_name("65f1a2b300001234"));
    assert_eq!(keep[2], "65f1a2b3-0000-1234-0000-000000000000");
    assert_eq!(keep[3], "00000001-0000-0002-0000-000000000000");
    for name in &keep {
        assert!(!should_remove_store(name, true, &keep));
    }
    assert!(should_remove_store("deadbeef-0000-0000-0000-000000000000", true, &keep));
    assert!(!should_remove_store("deadbeef-0000-0000-0000-000000000000", false, &keep));
    assert!(!should_remove_store("Default", true, &keep));
}

#[test]
fn time_ids_sort_by_creation_time() {
    let earlier = format_shortcut_id(1, 999_999_999);
    let later = format_shortcut_id(2, 0);
    assert_eq!(earlier.len(), 16);
    assert!(earlier < later);
    assert!(format_shortcut_id(5, 10) < format_shortcut_id(5, 11));
    assert!(format_shortcut_id(9, 0) < format_shortcut_id(10, 0));
    assert!(format_shortcut_id(0x6650_0000, 0) < format_shortcut_id(0x6650_0000, 1));
}

#[test]
fn distinct_time_ids_get_distinct_data_stores() {
    let a = shortcut_id_to_data_store_id("6650a1b20000000f");
    let b = shortcut_id_to_data_store_id("6650a1b20000001f");
    assert_ne!(a, b);
    assert_eq!(a, [0x66, 0x50, 0xa1, 0xb2, 0, 0, 0, 0x0f, 0, 0, 0, 0, 0, 0, 0, 0]);
}

#[test]
fn accepted_dir_names_come_from_one_id() {
    let id = [0xde, 0xad, 0xbe, 0xef, 0, 1, 2, 3, 4, 5, 6, 7, 8, 9, 0xaa, 0xff];
    let name = data_store_dir_name(id);
    assert_eq!(name, "deadbeef-0001-0203-0405-06070809aaff");
    assert!(is_data_store_dir_name(&name));
    let mut other = id;
    other[15] = 0xfe;
    assert_ne!(data_store_dir_name(other), name);
    assert!(!is_data_store_dir_name("DEADBEEF-0001-0203-0405-06070809AAFF"));
}
