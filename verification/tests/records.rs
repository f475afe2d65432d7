use rosmsg::records::{
    get_message_count, get_messages, get_topics, is_bag_file, is_on_topic, list_bag, ChunkEntry,
    ConnectionRecord, MessageDataRecord,
};

fn connection(conn_id: u32, topic: &str) -> ConnectionRecord {
    ConnectionRecord {
        conn_id,
        topic: topic.to_string(),
        message_definition: "float32 data".to_string(),
    }
}

fn message(conn_id: u32, payload: &[u8]) -> MessageDataRecord {
    MessageDataRecord { conn_id, payload: payload.to_vec() }
}

fn sample() -> Vec<ConnectionRecord> {
    vec![connection(0, "/imu"), connection(1, "/track"), connection(7, "/imu")]
}

#[test]
fn topics_in_order() {
    assert_eq!(get_topics(&sample()), vec!["/imu", "/track", "/imu"]);
    assert!(get_topics(&vec![]).is_empty());
}

#[test]
fn messages_are_matched_by_connection() {
    let messages = vec![
        message(0, &[1]),
        message(1, &[2, 2]),
        message(7, &[3]),
        message(9, &[4]),
        message(0, &[]),
    ];
    assert_eq!(get_messages(&sample(), &messages, "/imu"), vec![vec![1u8], vec![3], vec![]]);
    assert_eq!(get_messages(&sample(), &messages, "/track"), vec![vec![2u8, 2]]);
    assert!(get_messages(&sample(), &messages, "/none").is_empty());
    assert!(get_messages(&vec![], &messages, "/imu").is_empty());
}

#[test]
fn connection_belongs_to_its_topic_only() {
    assert!(is_on_topic(&sample(), 7, "/imu"));
    assert!(!is_on_topic(&sample(), 7, "/track"));
    assert!(!is_on_topic(&sample(), 2, "/imu"));
}

#[test]
fn counts_per_topic() {
    let entries = vec![
        ChunkEntry { conn_id: 0, count: 10 },
        ChunkEntry { conn_id: 1, count: 5 },
        ChunkEntry { conn_id: 7, count: 1 },
        ChunkEntry { conn_id: 3, count: 100 },
        ChunkEntry { conn_id: 1, count: 6 },
    ];
    assert_eq!(
        get_message_count(&sample(), &entries),
        vec![("/imu".to_string(), 11), ("/track".to_string(), 11)]
    );
    assert_eq!(
        get_message_count(&sample(), &vec![]),
        vec![("/imu".to_string(), 0), ("/track".to_string(), 0)]
    );
}

#[test]
fn bag_file_names() {
    assert!(is_bag_file("run.bag"));
    assert!(is_bag_file("autocross_2023-08-18-17-00-45.bag"));
    assert!(is_bag_file("a.b.bag"));
    assert!(is_bag_file("..bag"));
    assert!(!is_bag_file(".bag"));
    assert!(!is_bag_file("bag"));
    assert!(!is_bag_file("run.bag.active"));
    assert!(!is_bag_file("run.BAG"));
    assert!(!is_bag_file(""));
}

#[test]
fn listing_of_a_bag() {
    let topics = vec!["/imu".to_string(), "/track".to_string()];
    assert_eq!(
        list_bag("run.bag", &topics),
        "Bag: run.bag\n/imu\n/track\n\n-------------------------------\n\n"
    );
    assert_eq!(list_bag("e", &vec![]), "Bag: e\n\n-------------------------------\n\n");
}
