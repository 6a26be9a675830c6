use s3_namespace::metrics::{CpuSample, MemorySample, ProcessSample, ResourceMetrics};

fn cpu(user: u64, idle: u64) -> CpuSample {
    CpuSample { user, nice: 0, system: 0, idle, iowait: Some(0), irq: None, softirq: Some(0) }
}

fn mem() -> MemorySample {
    MemorySample { mem_total: 1000, mem_free: 400, buffers: 50, cached: 100, slab: 50 }
}

fn process(utime: u64, stime: u64) -> ProcessSample {
    ProcessSample { utime, stime, vsize: 5 * 1024 * 1024 + 7, rss_bytes: 125 }
}

#[test]
fn metrics_report_usage_since_last_reading() {
    let mut m = ResourceMetrics::new(&cpu(100, 100), &mem(), &process(10, 10));
    let out = m.update_and_fmt(&cpu(150, 150), &mem(), &process(15, 20));
    let pairs: Vec<(String, String)> = out.into_iter().map(|r| (r.name, r.value)).collect();
    assert_eq!(
        pairs,
        vec![
            ("resource.system.cpu".to_string(), "50.0%".to_string()),
            ("resource.system.memory.used".to_string(), "40.0%".to_string()),
            ("resource.system.memory.cached".to_string(), "20.0%".to_string()),
            ("resource.process.cpu".to_string(), "15.0%".to_string()),
            ("resource.process.memory.used".to_string(), "12.5%".to_string()),
            ("resource.process.memory.virtual_mib".to_string(), "5".to_string()),
        ]
    );
}

#[test]
fn metrics_with_no_time_passed() {
    let mut m = ResourceMetrics::new(&cpu(3, 3), &mem(), &process(1, 1));
    let out = m.update_and_fmt(&cpu(3, 3), &mem(), &process(2, 1));
    assert_eq!(out[0].value, "NaN%");
    assert_eq!(out[3].value, "inf%");
    let mut m = ResourceMetrics::new(&cpu(0, 0), &mem(), &process(0, 0));
    let out = m.update_and_fmt(&cpu(1, 2), &mem(), &process(0, 0));
    assert_eq!(out[0].value, "33.3%");
    let zero = MemorySample { mem_total: 0, mem_free: 0, buffers: 0, cached: 0, slab: 0 };
    let out = m.update_and_fmt(&cpu(2, 4), &zero, &process(0, 0));
    assert_eq!(out[1].value, "NaN%");
    assert_eq!(out[0].value, "33.3%");
}

#[test]
fn large_and_zero_values_in_decimal() {
    let mut m = ResourceMetrics::new(&cpu(0, 0), &mem(), &process(0, 0));
    let big = ProcessSample { utime: 0, stime: 0, vsize: u64::MAX, rss_bytes: 0 };
    let out = m.update_and_fmt(&cpu(0, 10), &mem(), &big);
    assert_eq!(out[5].value, (u64::MAX / (1024 * 1024)).to_string());
    assert_eq!(out[0].value, "0.0%");
    let small = ProcessSample { utime: 0, stime: 0, vsize: 1024 * 1024 - 1, rss_bytes: 0 };
    let out = m.update_and_fmt(&cpu(0, 20), &mem(), &small);
    assert_eq!(out[5].value, "0");
    assert_eq!(out[4].value, "0.0%");
}
