use hwscan::disk::{
    disk_name, disk_size_mb, disk_size_path, keep_partition_names, mount_fields, mount_requests, mounted_names, partition_names,
    partition_size_path, partition_syspath, partition_uuid, space_mb, DiskScan, Disksinfo,
    Partitioninfo, Partitionsinfo,
};

fn s(v: &str) -> String {
    v.to_string()
}

#[test]
fn disk_names_and_sizes() {
    assert_eq!(disk_name("/sys/block/sda"), "sda");
    assert_eq!(disk_name("/sys/block/nvme0n1"), "nvme0n1");
    assert_eq!(disk_size_path("/sys/block/sda"), "/sys/block/sda/size");
    assert_eq!(disk_size_mb(1000215216), 488386);
    assert_eq!(disk_size_mb(2048), 1);
    assert_eq!(disk_size_mb(2047), 0);
    assert_eq!(disk_size_mb(-4096), -2);
}

#[test]
fn partitions_are_filtered_and_sorted() {
    let entries = vec![
        s("/sys/block/sda/sda2"),
        s("/sys/block/sda/queue"),
        s("/sys/block/sda/sda1"),
        s("/sys/block/sda/size"),
        s("/sys/block/sda/holders"),
    ];
    let names = partition_names("/sys/block/sda", "sda", &entries).unwrap();
    assert_eq!(names, vec![s("sda1"), s("sda2")]);
}

#[test]
fn word_boundary_is_required_after_the_directory() {
    let entries = vec![s("/sys/block/sda/.sda9"), s("/sys/block/sda/sda3")];
    let names = partition_names("/sys/block/sda", "sda", &entries).unwrap();
    assert_eq!(names, vec![s("/sys/block/sda/.sda9"), s("sda3")]);
}

#[test]
fn partitions_of_disk_without_entries() {
    let names = partition_names("/sys/block/loop0", "loop0", &vec![]).unwrap();
    assert!(names.is_empty());
}

#[test]
fn refused_pattern_gives_none() {
    let entries = vec![s("/sys/block/sd(a/sd(a1")];
    assert!(partition_names("/sys/block/sd(a", "sd(a", &entries).is_none());
}

#[test]
fn partition_paths_and_uuid() {
    assert_eq!(partition_size_path("/sys/block/sda", "sda1"), "/sys/block/sda/sda1/size");
    assert_eq!(partition_syspath("sda", "sda1"), "/sys/block/sda/sda1");
    assert_eq!(partition_uuid(None), "Error / does not exist");
    assert_eq!(partition_uuid(Some(s("1234-ABCD"))), "1234-ABCD");
}

#[test]
fn mount_lines() {
    let names = vec![s("sda1"), s("sda2")];
    assert_eq!(mounted_names("/dev/sda1 /boot vfat rw 0 0", &names), vec![s("sda1")]);
    assert_eq!(mounted_names("/dev/sda10 /data ext4 rw 0 0", &names), vec![s("sda1")]);
    assert!(mounted_names("proc /proc proc rw 0 0", &names).is_empty());
    assert_eq!(
        mount_fields("/dev/sda1 /boot vfat rw 0 0"),
        (Some(s("/boot")), Some(s("vfat")))
    );
    assert_eq!(mount_fields("/dev/sda1 /boot"), (Some(s("/boot")), None));
    assert_eq!(mount_fields("single"), (None, None));
    assert_eq!(mount_fields("a  b"), (Some(s("")), Some(s("b"))));
}

#[test]
fn space_in_megabytes() {
    assert_eq!(space_mb(4096, 262144), 1024);
    assert_eq!(space_mb(512, 4095), 1);
    assert_eq!(space_mb(0, 5), 0);
}

#[test]
fn model_from_first_property() {
    let mut d = DiskScan::new(100);
    assert_eq!(d.model_query(), Some(s("ID_MODEL")));
    d.answer_model(Some(s("Samsung_SSD")));
    assert_eq!(d.model_query(), None);
    let disk = d.finish();
    assert_eq!(disk.modelname(), "Samsung_SSD");
    assert_eq!(disk.size_in_mb(), 100);
}

#[test]
fn model_from_second_property() {
    let mut d = DiskScan::new(7);
    d.answer_model(None);
    assert_eq!(d.model_query(), Some(s("ID_NAME")));
    d.answer_model(Some(s("mmc-card")));
    assert_eq!(d.model_query(), None);
    assert_eq!(d.finish().modelname(), "mmc-card");
}

#[test]
fn model_unknown_and_absent() {
    let mut d = DiskScan::new(7);
    d.answer_model(None);
    d.answer_model(None);
    assert_eq!(d.finish().modelname(), "Error");
    let d = DiskScan::new(7);
    assert_eq!(d.finish().modelname(), "");
}

#[test]
fn partitions_and_mounts() {
    let mut d = DiskScan::new(1000);
    d.add_partition(s("sda1"), 512, Some(s("AAAA-BBBB")));
    d.add_partition(s("sda2"), 488, None);
    assert!(d.has_partition("sda1"));
    assert!(!d.has_partition("sda3"));
    d.record_mount("sda1", s("/boot"), s("vfat"), 4096, 262144, 131072);
    let disk = d.finish();
    let p1 = disk.partitions().get("sda1").unwrap();
    assert_eq!(p1.size_in_mb(), 512);
    assert_eq!(p1.uuid(), "AAAA-BBBB");
    assert_eq!(p1.used_in_mb(), Some(512));
    assert_eq!(p1.free_in_mb(), Some(512));
    assert_eq!(p1.mountpoint().unwrap(), "/boot");
    assert_eq!(p1.filesystemtype().unwrap(), "vfat");
    let p2 = disk.partitions().get("sda2").unwrap();
    assert_eq!(p2.uuid(), "Error / does not exist");
    assert_eq!(p2.used_in_mb(), None);
    assert!(p2.mountpoint().is_none());
}

#[test]
fn later_mount_replaces_earlier() {
    let mut d = DiskScan::new(10);
    d.add_partition(s("sdb1"), 10, None);
    d.record_mount("sdb1", s("/mnt/a"), s("ext4"), 1024, 2048, 1024);
    d.record_mount("sdb1", s("/mnt/b"), s("xfs"), 1024, 4096, 0);
    let disk = d.finish();
    let p = disk.partitions().get("sdb1").unwrap();
    assert_eq!(p.mountpoint().unwrap(), "/mnt/b");
    assert_eq!(p.filesystemtype().unwrap(), "xfs");
    assert_eq!(p.used_in_mb(), Some(4));
    assert_eq!(p.free_in_mb(), Some(0));
}

#[test]
fn partition_table_replaces_by_name() {
    let mut t = Partitionsinfo::new();
    t.insert(s("sda1"), Partitioninfo::unmounted(1, s("u1")));
    t.insert(s("sda1"), Partitioninfo::unmounted(2, s("u2")));
    assert_eq!(t.entries().len(), 1);
    assert_eq!(t.get("sda1").unwrap().size_in_mb(), 2);
    assert!(t.contains("sda1"));
    assert!(t.get("sda2").is_none());
}

#[test]
fn disks_by_name() {
    let mut all = Disksinfo::new();
    assert!(all.get("sda").is_none());
    all.insert(s("sda"), DiskScan::new(5).finish());
    all.insert(s("sdb"), DiskScan::new(6).finish());
    all.insert(s("sda"), DiskScan::new(7).finish());
    assert_eq!(all.entries().len(), 2);
    assert_eq!(all.get("sda").unwrap().size_in_mb(), 7);
    assert_eq!(all.get("sdb").unwrap().size_in_mb(), 6);
}

#[test]
fn kept_names_hold_the_disk_name() {
    let stripped = vec![s("sdb2"), s("queue"), s("sdb1"), s("/sys/block/sdb/.sdb")];
    assert_eq!(
        keep_partition_names(&stripped, "sdb"),
        vec![s("/sys/block/sdb/.sdb"), s("sdb1"), s("sdb2")]
    );
    assert!(keep_partition_names(&vec![], "sdb").is_empty());
}

#[test]
fn mount_requests_follow_lines_then_names() {
    let lines = vec![
        s("/dev/sda2 / ext4 rw 0 0"),
        s("proc /proc proc rw 0 0"),
        s("/dev/sda1 /boot vfat rw 0 0"),
        s("/dev/sda2 /home"),
    ];
    let names = vec![s("sda1"), s("sda2")];
    let r = mount_requests(&lines, &names);
    let seen: Vec<(String, Option<String>, Option<String>)> =
        r.iter().map(|q| (q.partition.clone(), q.mountpoint.clone(), q.fstype.clone())).collect();
    assert_eq!(
        seen,
        vec![
            (s("sda2"), Some(s("/")), Some(s("ext4"))),
            (s("sda1"), Some(s("/boot")), Some(s("vfat"))),
            (s("sda2"), Some(s("/home")), None),
        ]
    );
}

#[test]
fn mounts_set_all_four_fields_of_named_partitions_only() {
    let lines = vec![s("/dev/sdc1 /data xfs rw 0 0"), s("/dev/sdc1 /again ext4 rw 0 0")];
    let names = vec![s("sdc1"), s("sdc2")];
    let mut d = DiskScan::new(20);
    d.add_partition(s("sdc1"), 10, None);
    d.add_partition(s("sdc2"), 10, None);
    let requests = mount_requests(&lines, &names);
    d.record_mounts(&requests, &vec![(1024, 4096, 1024), (2048, 2048, 1024)]);
    let disk = d.finish();
    let p1 = disk.partitions().get("sdc1").unwrap();
    assert_eq!(p1.mountpoint().unwrap(), "/again");
    assert_eq!(p1.filesystemtype().unwrap(), "ext4");
    assert_eq!(p1.used_in_mb(), Some(2));
    assert_eq!(p1.free_in_mb(), Some(2));
    let p2 = disk.partitions().get("sdc2").unwrap();
    assert!(p2.mountpoint().is_none() && p2.filesystemtype().is_none());
    assert!(p2.used_in_mb().is_none() && p2.free_in_mb().is_none());
}
