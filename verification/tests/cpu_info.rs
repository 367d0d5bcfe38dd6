use hwscan::cpu::{
    cache_index_name, cache_instance, cache_size_k, count_distinct, freqlimit, is_cache_index,
    cache_file_path, shared_cpu_list_path, Cpuinfo,
};

fn s(v: &str) -> String {
    v.to_string()
}

#[test]
fn new_cpuinfo_is_empty() {
    let c = Cpuinfo::new();
    assert!(c.modelname().is_none());
    assert_eq!(c.architecture(), 0);
    assert_eq!(c.cores(), 0);
    assert_eq!(c.threads(), 0);
    assert_eq!(c.maxmhz(), 0);
    assert_eq!(c.minmhz(), 0);
    assert!(c.cpufreq().is_empty());
    assert!(c.caches().is_empty());
}

#[test]
fn model_name_line_sets_model() {
    let mut c = Cpuinfo::new();
    let n = c.basic_speed_info(s("model name\t: Intel(R) Core(TM) i7-8550U CPU @ 1.80GHz"), 0);
    assert_eq!(n, 1);
    assert_eq!(c.modelname().unwrap(), "Intel(R) Core(TM) i7-8550U CPU @ 1.80GHz");
}

#[test]
fn flags_line_sets_architecture() {
    let mut c = Cpuinfo::new();
    c.basic_speed_info(s("flags\t\t: fpu vme de pse lm constant_tsc"), 0);
    assert_eq!(c.architecture(), 64);
    let mut c = Cpuinfo::new();
    c.basic_speed_info(s("flags\t\t: fpu vme pmx"), 0);
    assert_eq!(c.architecture(), 32);
    let mut c = Cpuinfo::new();
    c.basic_speed_info(s("flags\t\t: fpu rlx"), 0);
    assert_eq!(c.architecture(), 16);
    let mut c = Cpuinfo::new();
    c.basic_speed_info(s("flags\t\t: fpu vme"), 0);
    assert_eq!(c.architecture(), 0);
}

#[test]
fn cores_and_siblings_lines() {
    let mut c = Cpuinfo::new();
    let n = c.basic_speed_info(s("cpu cores\t: 4"), 3);
    assert_eq!(n, 4);
    let n = c.basic_speed_info(s("siblings\t: 8"), n);
    assert_eq!(n, 5);
    assert_eq!(c.cores(), 4);
    assert_eq!(c.threads(), 8);
}

#[test]
fn mhz_line_adds_whole_megahertz() {
    let mut c = Cpuinfo::new();
    c.basic_speed_info(s("cpu MHz\t\t: 2394.454"), 0);
    c.basic_speed_info(s("cpu MHz\t\t: 800"), 40);
    assert_eq!(c.cpufreq(), &vec![2394, 800]);
}

#[test]
fn count_stops_at_28_and_late_lines_only_add_speeds() {
    let mut c = Cpuinfo::new();
    let n = c.basic_speed_info(s("model name\t: Late"), 28);
    assert_eq!(n, 28);
    assert!(c.modelname().is_none());
    let n = c.basic_speed_info(s("cpu cores\t: 12"), 28);
    assert_eq!(n, 28);
    assert_eq!(c.cores(), 0);
    let n = c.basic_speed_info(s("cpu MHz\t\t: 1200.000"), 28);
    assert_eq!(n, 28);
    assert_eq!(c.cpufreq(), &vec![1200]);
    let n = c.basic_speed_info(s("processor\t: 0"), 27);
    assert_eq!(n, 28);
}

#[test]
fn speed_line_check() {
    assert!(Cpuinfo::speed_line_ok("cpu cores\t: 4", 0));
    assert!(!Cpuinfo::speed_line_ok("cpu cores\t: four", 0));
    assert!(Cpuinfo::speed_line_ok("cpu cores\t: four", 28));
    assert!(!Cpuinfo::speed_line_ok("siblings\t: ", 5));
    assert!(!Cpuinfo::speed_line_ok("cpu MHz\t\t: fast", 30));
    assert!(Cpuinfo::speed_line_ok("cpu MHz\t\t: 3000.1", 30));
    assert!(Cpuinfo::speed_line_ok("vendor_id\t: GenuineIntel", 0));
}

#[test]
fn freqlimit_divides_by_thousand() {
    let mut v = 0;
    freqlimit("3400000", &mut v);
    assert_eq!(v, 3400);
    freqlimit("799999", &mut v);
    assert_eq!(v, 799);
    freqlimit("-1500", &mut v);
    assert_eq!(v, -1);
}

#[test]
fn freq_limits_are_stored() {
    let mut c = Cpuinfo::new();
    c.set_freq_limits("4000000", "400000");
    assert_eq!(c.maxmhz(), 4000);
    assert_eq!(c.minmhz(), 400);
}

#[test]
fn cache_entry_names() {
    assert_eq!(cache_index_name("/sys/devices/system/cpu/cpu0/cache/index2"), "index2");
    assert_eq!(cache_index_name("/sys/devices/system/cpu/cpu0/cache/uevent"), "uevent");
    assert!(is_cache_index("index0"));
    assert!(!is_cache_index("uevent"));
    assert_eq!(cache_instance("index3"), Some(3));
    assert_eq!(cache_instance("uevent"), None);
    assert_eq!(cache_size_k("32K"), Some(32));
    assert_eq!(cache_size_k("8192K"), Some(8192));
    assert_eq!(cache_size_k("big"), None);
}

#[test]
fn cache_paths() {
    assert_eq!(cache_file_path("/size", "index0"), "/sys/devices/system/cpu/cpu0/cache/index0/size");
    assert_eq!(
        shared_cpu_list_path(3, 2),
        "/sys/devices/system/cpu/cpu3/cache/index2/shared_cpu_list"
    );
    assert_eq!(
        shared_cpu_list_path(11, 0),
        "/sys/devices/system/cpu/cpu11/cache/index0/shared_cpu_list"
    );
}

#[test]
fn distinct_lists_are_counted() {
    let lists = vec![s("0-1"), s("0-1"), s("2-3"), s("2-3")];
    assert_eq!(count_distinct(&lists), 2);
    assert_eq!(count_distinct(&vec![]), 0);
    let lists = vec![s("0"), s("1"), s("0"), s("2")];
    assert_eq!(count_distinct(&lists), 3);
}

fn with_threads(n: i32) -> Cpuinfo {
    let mut c = Cpuinfo::new();
    c.basic_speed_info(format!("siblings\t: {}", n), 0);
    c
}

const DIR: &str = "/sys/devices/system/cpu/cpu0/cache/";

#[test]
fn cache_is_added_with_copies() {
    let mut c = with_threads(4);
    let lists = vec![s("0-1"), s("0-1"), s("2-3"), s("2-3")];
    let p0 = format!("{}index0", DIR);
    assert!(c.cache_inputs_ok(&p0, "32K", "1", &lists));
    c.cpu_cache(&p0, "32K", "1", &lists);
    let p3 = format!("{}index3", DIR);
    c.cpu_cache(&p3, "6144K", "3", &vec![s("0-3"); 4]);
    let caches = c.caches();
    assert_eq!(caches.len(), 2);
    assert_eq!(caches[0].level(), 1);
    assert_eq!(caches[0].instance(), 0);
    assert_eq!(caches[0].size_in_k(), 64);
    assert_eq!(caches[0].physical_memory().unwrap(), "32x2");
    assert_eq!(caches[1].level(), 3);
    assert_eq!(caches[1].instance(), 3);
    assert_eq!(caches[1].size_in_k(), 6144);
    assert_eq!(caches[1].physical_memory().unwrap(), "6144x1");
    assert_eq!(c.threads(), 4);
}

#[test]
fn uevent_entry_changes_nothing() {
    let mut c = with_threads(2);
    let before = format!("{:?}", c);
    let p = format!("{}uevent", DIR);
    assert!(c.cache_inputs_ok(&p, "", "", &vec![]));
    c.cpu_cache(&p, "", "", &vec![]);
    assert_eq!(format!("{:?}", c), before);
    assert!(c.caches().is_empty());
}

#[test]
fn cache_inputs_are_checked() {
    let c = with_threads(2);
    let p = format!("{}index1", DIR);
    let two = vec![s("0"), s("1")];
    assert!(c.cache_inputs_ok(&p, "48K", "1", &two));
    assert!(!c.cache_inputs_ok(&p, "48K", "one", &two));
    assert!(!c.cache_inputs_ok(&p, "big", "1", &two));
    assert!(!c.cache_inputs_ok(&p, "48K", "1", &vec![s("0")]));
    assert!(!c.cache_inputs_ok(&format!("{}indexX", DIR), "48K", "1", &two));
    assert!(!c.cache_inputs_ok(&p, "2000000000K", "1", &two));
}

#[test]
fn cache_without_threads_has_no_copies() {
    let mut c = Cpuinfo::new();
    c.cpu_cache(&format!("{}index2", DIR), "256K", "2", &vec![]);
    assert_eq!(c.caches()[0].size_in_k(), 0);
    assert_eq!(c.caches()[0].physical_memory().unwrap(), "256x0");
}

#[test]
fn physical_memory_reads_back() {
    let mut c = with_threads(3);
    c.cpu_cache(&format!("{}index1", DIR), "512K", "2", &vec![s("0"), s("1"), s("2")]);
    let text = c.caches()[0].physical_memory().unwrap().clone();
    let parts: Vec<&str> = text.split('x').collect();
    assert_eq!(parts, vec!["512", "3"]);
    assert_eq!(parts[0].parse::<i32>().unwrap() * parts[1].parse::<i32>().unwrap(), c.caches()[0].size_in_k());
}

fn sample_cpuinfo(processors: usize) -> Vec<String> {
    let mut out = Vec::new();
    for p in 0..processors {
        for l in [
            format!("processor\t: {}", p),
            s("vendor_id\t: GenuineIntel"),
            s("cpu family\t: 6"),
            s("model\t\t: 142"),
            s("model name\t: Intel(R) Core(TM) i5-8250U CPU @ 1.60GHz"),
            s("stepping\t: 10"),
            format!("cpu MHz\t\t: {}.123", 1600 + p),
            s("cache size\t: 6144 KB"),
            s("physical id\t: 0"),
            s("siblings\t: 8"),
            format!("core id\t\t: {}", p % 4),
            s("cpu cores\t: 4"),
            s("flags\t\t: fpu vme de pse tsc msr pae mce lm nopl"),
            s(""),
        ] {
            out.push(l);
        }
    }
    out
}

#[test]
fn scan_of_whole_cpuinfo() {
    let lines = sample_cpuinfo(4);
    assert!(Cpuinfo::lines_ok(&lines));
    let mut c = Cpuinfo::new();
    c.scan_cpuinfo(&lines);
    assert_eq!(c.modelname().unwrap(), "Intel(R) Core(TM) i5-8250U CPU @ 1.60GHz");
    assert_eq!(c.architecture(), 64);
    assert_eq!(c.cores(), 4);
    assert_eq!(c.threads(), 8);
    assert_eq!(c.cpufreq(), &vec![1600, 1601, 1602, 1603]);
}

#[test]
fn scan_equals_line_by_line() {
    let lines = sample_cpuinfo(3);
    let mut a = Cpuinfo::new();
    a.scan_cpuinfo(&lines);
    let mut b = Cpuinfo::new();
    let mut count = 0;
    for l in &lines {
        count = b.basic_speed_info(l.clone(), count);
    }
    assert_eq!(count, 28);
    assert_eq!(format!("{:?}", a), format!("{:?}", b));
}

#[test]
fn header_comes_from_first_28_lines_only() {
    let mut lines = sample_cpuinfo(2);
    lines.push(s("model name\t: Other"));
    lines.push(s("cpu cores\t: 99"));
    lines.push(s("cpu MHz\t\t: 42.0"));
    let mut all = Cpuinfo::new();
    all.scan_cpuinfo(&lines);
    let mut first = Cpuinfo::new();
    first.scan_cpuinfo(&lines[..28].to_vec());
    assert_eq!(all.modelname(), first.modelname());
    assert_eq!(all.cores(), first.cores());
    assert_eq!(all.threads(), first.threads());
    assert_eq!(all.architecture(), first.architecture());
    assert_eq!(all.cpufreq(), &vec![1600, 1601, 42]);
}

#[test]
fn bad_lines_are_found() {
    let mut lines = sample_cpuinfo(1);
    lines.push(s("cpu MHz\t\t: unknown"));
    assert!(!Cpuinfo::lines_ok(&lines));
    let mut late_cores = sample_cpuinfo(3);
    late_cores.push(s("cpu cores\t: many"));
    assert!(Cpuinfo::lines_ok(&late_cores));
}

#[test]
fn same_header_and_speeds_give_same_record() {
    let mut a = sample_cpuinfo(3);
    let mut b = sample_cpuinfo(3);
    a.push(s("bugs\t\t: spectre"));
    b[30] = s("bogomips\t: 1.0");
    b.push(s("power management:"));
    let mut x = Cpuinfo::new();
    x.scan_cpuinfo(&a);
    let mut y = Cpuinfo::new();
    y.scan_cpuinfo(&b);
    assert_eq!(format!("{:?}", x), format!("{:?}", y));
}
