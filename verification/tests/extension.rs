use std::sync::{Arc, Mutex};
use std::time::Instant;

use zos_wm::extension::{Extension, ExtensionRegistry, LogFrameCount};

struct CountExt {
    init: u32,
    pre: u32,
    post: u32,
    shut: u32,
}

impl Extension for CountExt {
    fn name(&self) -> &str {
        "count-ext"
    }
    fn init(&mut self) {
        self.init += 1;
    }
    fn pre_frame(&mut self, _now: Instant) {
        self.pre += 1;
    }
    fn post_frame(&mut self, _now: Instant) {
        self.post += 1;
    }
    fn shutdown(&mut self) {
        self.shut += 1;
    }
}

#[test]
fn registry_dispatches_to_all() {
    let mut reg = ExtensionRegistry::new();
    reg.register(Box::new(CountExt { init: 0, pre: 0, post: 0, shut: 0 }));
    reg.register(Box::new(LogFrameCount::new()));
    assert_eq!(reg.extensions.len(), 2);
    reg.init_all();
    let now = Instant::now();
    reg.pre_frame_all(now);
    reg.post_frame_all(now);
    reg.shutdown_all();
}

/// Records every hook call into a shared log.
struct Recorder {
    tag: &'static str,
    log: Arc<Mutex<Vec<String>>>,
}

impl Extension for Recorder {
    fn name(&self) -> &str {
        self.tag
    }
    fn init(&mut self) {
        self.log.lock().unwrap().push(format!("{}:init", self.tag));
    }
    fn pre_frame(&mut self, _now: Instant) {
        self.log.lock().unwrap().push(format!("{}:pre", self.tag));
    }
    fn post_frame(&mut self, _now: Instant) {
        self.log.lock().unwrap().push(format!("{}:post", self.tag));
    }
    fn shutdown(&mut self) {
        self.log.lock().unwrap().push(format!("{}:shutdown", self.tag));
    }
}

#[test]
fn hooks_run_in_registration_order() {
    let log = Arc::new(Mutex::new(Vec::new()));
    let mut reg = ExtensionRegistry::default();
    reg.register(Box::new(Recorder { tag: "a", log: log.clone() }));
    reg.register(Box::new(Recorder { tag: "b", log: log.clone() }));
    reg.init_all();
    reg.pre_frame_all(Instant::now());
    reg.post_frame_all(Instant::now());
    reg.shutdown_all();
    assert_eq!(
        *log.lock().unwrap(),
        vec!["a:init", "b:init", "a:pre", "b:pre", "a:post", "b:post", "a:shutdown", "b:shutdown"]
    );
    assert_eq!(reg.names(), vec!["a".to_string(), "b".to_string()]);
}

#[test]
fn frame_counter_counts_pre_frames() {
    let mut ext = LogFrameCount::new();
    assert_eq!(ext.name(), "log-frame-count");
    assert_eq!(ext.count(), 0);
    let now = Instant::now();
    ext.pre_frame(now);
    ext.pre_frame(now);
    ext.post_frame(now);
    assert_eq!(ext.count(), 2);
    assert_eq!(LogFrameCount::default().count(), 0);
}
