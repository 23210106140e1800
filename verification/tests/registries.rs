use home_manager::actionners::Actionners;
use home_manager::devices::Devices;
use home_manager::handler::ProbeOutcome;
use home_manager::objects::{ActionnerId, ObjectKind};

fn fresh_dir(tag: &str) -> String {
    let nanos = std::time::SystemTime::now()
        .duration_since(std::time::UNIX_EPOCH)
        .unwrap()
        .as_nanos();
    format!("/tmp/home_manager_test_{}_{}", tag, nanos)
}

fn yes_reply() -> ProbeOutcome {
    ProbeOutcome::Reply(b"yes\n".to_vec())
}

#[test]
fn device_ids_count_up_from_zero() {
    let root = fresh_dir("dev_ids");
    let known = vec![0u32];
    let mut devices = Devices::open(&root, &known).unwrap();
    for expected in 0u32..3 {
        let id = devices
            .add(
                ObjectKind::LED,
                0,
                format!("led{}", expected),
                ActionnerId::Arduino(expected as i8),
            )
            .unwrap();
        assert_eq!(id, expected);
    }
}

#[test]
fn device_ids_survive_reopen() {
    let root = fresh_dir("dev_reopen");
    let known = vec![0u32];
    {
        let mut devices = Devices::open(&root, &known).unwrap();
        assert_eq!(
            devices
                .add(ObjectKind::LED, 0, String::from("a"), ActionnerId::Arduino(1))
                .unwrap(),
            0
        );
        assert_eq!(
            devices
                .add(ObjectKind::LED, 0, String::from("b"), ActionnerId::Arduino(2))
                .unwrap(),
            1
        );
    }
    let mut devices = Devices::open(&root, &known).unwrap();
    assert_eq!(
        devices
            .add(ObjectKind::LED, 0, String::from("c"), ActionnerId::Arduino(3))
            .unwrap(),
        2
    );
    assert_eq!(devices.list().unwrap().len(), 3);
}

#[test]
fn device_lookup_returns_stored_descriptor() {
    let root = fresh_dir("dev_get");
    let known = vec![9u32];
    let mut devices = Devices::open(&root, &known).unwrap();
    let id = devices
        .add(ObjectKind::LED, 9, String::from("porch"), ActionnerId::Arduino(-4))
        .unwrap();
    let obj = devices.get(id).unwrap().unwrap();
    assert_eq!(obj.actionner_id, 9);
    assert_eq!(obj.name, "porch");
    assert!(matches!(obj.id_in_actionner, ActionnerId::Arduino(-4)));
    assert!(devices.get(id + 1).unwrap().is_none());
}

#[test]
fn orphan_devices_are_dropped_at_open() {
    let root = fresh_dir("dev_orphan");
    {
        let mut devices = Devices::open(&root, &vec![7u32]).unwrap();
        devices
            .add(ObjectKind::LED, 7, String::from("lost"), ActionnerId::Arduino(1))
            .unwrap();
        assert_eq!(devices.list().unwrap().len(), 1);
    }
    {
        // actionner 7 is gone: its device must vanish from the listing
        let devices = Devices::open(&root, &Vec::new()).unwrap();
        assert_eq!(devices.list().unwrap().len(), 0);
    }
    // and from the store itself: even with 7 known again, nothing is back
    let devices = Devices::open(&root, &vec![7u32]).unwrap();
    assert_eq!(devices.list().unwrap().len(), 0);
}

#[test]
fn orphan_reconciliation_keeps_owned_devices() {
    let root = fresh_dir("dev_keep");
    {
        let mut devices = Devices::open(&root, &vec![1u32, 2]).unwrap();
        devices
            .add(ObjectKind::LED, 1, String::from("keep"), ActionnerId::Arduino(0))
            .unwrap();
        devices
            .add(ObjectKind::LED, 2, String::from("drop"), ActionnerId::Arduino(1))
            .unwrap();
    }
    // the open that evicts the orphan keeps it out of the listing, yet
    // its id counter still covers the record it just removed
    let mut devices = Devices::open(&root, &vec![1u32]).unwrap();
    let list = devices.list().unwrap();
    assert_eq!(list.len(), 1);
    assert_eq!(list[0].1.name, "keep");
    assert_eq!(
        devices
            .add(ObjectKind::LED, 1, String::from("next"), ActionnerId::Arduino(2))
            .unwrap(),
        2
    );
}

#[test]
fn actionner_registration_needs_live_probe() {
    let root = fresh_dir("act_gate");
    let pending = Actionners::open(&root).unwrap();
    assert!(pending.pending().is_empty());
    let mut actionners = pending.resolve(Vec::new()).unwrap();

    let data = home_manager::objects::ActionnerData {
        protocol: home_manager::objects::Protocol::Arduino,
        remote: String::from("127.0.0.1:9999"),
        name: String::from("ard1"),
    };
    let err = actionners.add(data, ProbeOutcome::IoFailed(String::from("refused")));
    assert!(err.is_err());
    assert_eq!(actionners.get_list().len(), 0);

    let data = home_manager::objects::ActionnerData {
        protocol: home_manager::objects::Protocol::Arduino,
        remote: String::from("127.0.0.1:9999"),
        name: String::from("ard1"),
    };
    let id = actionners.add(data, yes_reply()).unwrap();
    // the failed attempt burned an id; ids are never reused
    assert_eq!(id, 1);
    let list = actionners.get_list();
    assert_eq!(list.len(), 1);
    assert_eq!(list[0].id, 1);
    assert_eq!(list[0].name, "ard1");
    assert_eq!(list[0].protocol, "Arduino");
}

#[test]
fn dead_actionners_are_evicted_at_open() {
    let root = fresh_dir("act_evict");
    {
        let pending = Actionners::open(&root).unwrap();
        let mut actionners = pending.resolve(Vec::new()).unwrap();
        let data = home_manager::objects::ActionnerData {
            protocol: home_manager::objects::Protocol::Arduino,
            remote: String::from("127.0.0.1:9999"),
            name: String::from("flaky"),
        };
        assert_eq!(actionners.add(data, yes_reply()).unwrap(), 0);
    }
    {
        // the stored descriptor fails its probe at reopen: it is gone
        let pending = Actionners::open(&root).unwrap();
        assert_eq!(pending.pending().len(), 1);
        let outcomes = vec![ProbeOutcome::IoFailed(String::from("timed out"))];
        let mut actionners = pending.resolve(outcomes).unwrap();
        assert_eq!(actionners.get_list().len(), 0);
        assert_eq!(actionners.get_known().len(), 0);
        // the id counter was recovered over the stored set before the
        // eviction: the evicted id is not reused
        let data = home_manager::objects::ActionnerData {
            protocol: home_manager::objects::Protocol::Arduino,
            remote: String::from("127.0.0.1:9999"),
            name: String::from("fresh"),
        };
        assert_eq!(actionners.add(data, yes_reply()).unwrap(), 1);
    }
    // the evicted descriptor is gone from the persistent store too:
    // only the replacement registered under id 1 remains
    let pending = Actionners::open(&root).unwrap();
    assert_eq!(pending.pending().len(), 1);
    assert_eq!(pending.pending()[0].0, 1);
    assert_eq!(pending.pending()[0].1.name, "fresh");
}

#[test]
fn revived_actionners_stay_registered() {
    let root = fresh_dir("act_revive");
    {
        let pending = Actionners::open(&root).unwrap();
        let mut actionners = pending.resolve(Vec::new()).unwrap();
        let data = home_manager::objects::ActionnerData {
            protocol: home_manager::objects::Protocol::Arduino,
            remote: String::from("10.0.0.2:4242"),
            name: String::from("steady"),
        };
        assert_eq!(actionners.add(data, yes_reply()).unwrap(), 0);
    }
    let pending = Actionners::open(&root).unwrap();
    assert_eq!(pending.pending().len(), 1);
    assert_eq!(pending.pending()[0].0, 0);
    assert_eq!(pending.pending()[0].1.name, "steady");
    let actionners = pending.resolve(vec![yes_reply()]).unwrap();
    let list = actionners.get_list();
    assert_eq!(list.len(), 1);
    assert_eq!(list[0].name, "steady");
    assert_eq!(actionners.get_known(), vec![0]);
}
