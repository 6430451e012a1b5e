use zhongyi_engine::database::Database;
use zhongyi_engine::medicine::{Medicine, Medicines};
use zhongyi_engine::prescript::{Prescript, Prescripts};
use zhongyi_engine::unit::{Quantum, Unit, VolumeUnit, WeightUnit};

fn medicine(name: &str) -> Medicine {
    Medicine::new(name)
}

#[test]
fn medicine_test() {
    let gancao = Medicine::new("甘草");
    assert_eq!(gancao.to_text(), "名称：甘草");
}

#[test]
fn medicines_test() {
    // prepare
    let mut _medicine = Medicine::new("甘草");
    _medicine.attribute = String::from("补脾益气、润肺止咳、清热解毒和调和诸药");
    let mut medicines = Medicines::new();
    // insert
    assert_eq!(medicines.insert(_medicine.clone()), None);
    assert_eq!(medicines.insert(_medicine.clone()), Some(_medicine.clone()));
    // search
    assert_eq!(medicines.search("甘草"), Some(_medicine.clone()));
    // delete
    assert_eq!(medicines.delete("甘草"), Some(_medicine));
    assert_eq!(medicines.delete("甘草"), None);
}

#[test]
fn prescript_test() {
    assert!(true);
}

#[test]
fn new_quantum() {
    let _ge = Unit::VolumeUnit(VolumeUnit::Ge);
    let _liang = Unit::WeightUnit(WeightUnit::Liang);
    let _fen = Unit::FuzzyUnit("分".to_string());

    let _yi_ge = Quantum::new(1, _ge.clone());
    let _er_liang = Quantum::new(2, _liang.clone());
    let _yi_fen = Quantum::new(1, _fen.clone());

    // test to_text
    assert_eq!(_ge.to_text(), "合");
    assert_eq!(_liang.to_text(), "两");
    assert_eq!(_fen.to_text(), "分");
}

#[test]
fn uniqueness_by_name() {
    let mut a = medicine("当归");
    a.alias = String::from("干归");
    let mut b = medicine("当归");
    b.alias = String::from("秦归");
    b.summary = String::from("补血活血");

    let mut store = Medicines::new();
    assert_eq!(store.insert(a.clone()), None);
    let prev = store.insert(b.clone()).expect("the first record must be handed back");
    assert_eq!(prev.alias, "干归");
    let kept = store.search("当归").expect("one record must remain");
    assert_eq!(kept.alias, "秦归");
    assert_eq!(kept.summary, "补血活血");
    assert_eq!(store.delete("当归").expect("one record").alias, "秦归");
    assert_eq!(store.delete("当归"), None);
}

#[test]
fn absent_returns_none() {
    let mut store = Medicines::new();
    assert_eq!(store.search("never-inserted"), None);
    assert_eq!(store.delete("never-inserted"), None);
}

#[test]
fn delete_then_search() {
    let mut store = Medicines::new();
    let r = medicine("柴胡");
    store.insert(r.clone());
    store.delete("柴胡");
    assert_eq!(store.search("柴胡"), None);
}

#[test]
fn flush_round_trip() {
    let mut db = Database::new("Medicines");
    let mut store = Medicines::load(&db);

    let mut r1 = medicine("黄芪");
    r1.attribute = String::from("补气升阳");
    let mut r2 = medicine("白术");
    r2.taboo = String::from("阴虚内热者慎用");
    store.insert(r1);
    store.insert(r2);
    store.flush(&mut db);

    // carry the payload to "disk" and back into a fresh handle
    let disk = db.begin_write().expect("a flushed store has text to write").clone();
    db.finish_write();
    let mut db2 = Database::new("Medicines");
    db2.read(disk.as_str());
    let store2 = Medicines::load(&db2);

    let got1 = store2.search("黄芪").expect("first record survives the round trip");
    assert_eq!(got1.attribute, "补气升阳");
    assert_eq!(got1.taboo, "");
    let got2 = store2.search("白术").expect("second record survives the round trip");
    assert_eq!(got2.taboo, "阴虚内热者慎用");
    assert_eq!(store2.search("人参"), None);
}

#[test]
fn round_trip_keeps_special_characters() {
    let mut db = Database::new("Medicines");
    let mut store = Medicines::load(&db);
    let mut r = medicine("a\\b\nc");
    r.summary = String::from("line one\nline two\\end");
    store.insert(r);
    store.flush(&mut db);

    let disk = db.begin_write().expect("text to write").clone();
    db.finish_write();
    let mut db2 = Database::new("Medicines");
    db2.read(disk.as_str());
    let store2 = Medicines::load(&db2);
    let got = store2.search("a\\b\nc").expect("escaped name survives");
    assert_eq!(got.summary, "line one\nline two\\end");
}

#[test]
fn no_dirty_no_write() {
    let mut db = Database::new("Medicines");
    let mut store = Medicines::load(&db);
    store.insert(medicine("芍药"));

    let mut writes: usize = 0;
    store.flush(&mut db);
    if db.begin_write().is_some() {
        writes += 1;
        db.finish_write();
    }
    store.flush(&mut db);
    if db.begin_write().is_some() {
        writes += 1;
        db.finish_write();
    }
    assert_eq!(writes, 1);
}

#[test]
fn load_alone_never_writes() {
    let mut db = Database::new("Medicines");
    db.read("x\n\n\n\n\n\n");
    let mut store = Medicines::load(&db);
    store.flush(&mut db);
    assert!(db.begin_write().is_none());
}

#[test]
fn concrete_scenario() {
    let mut store = Medicines::new();
    assert_eq!(store.insert(medicine("甘草")), None);
    let mut richer = medicine("甘草");
    richer.attribute = String::from("补脾益气");
    let prev = store.insert(richer).expect("the plain record is handed back");
    assert_eq!(prev.name, "甘草");
    assert_eq!(prev.attribute, "");
    let found = store.search("甘草").expect("the richer record is stored");
    assert_eq!(found.attribute, "补脾益气");
    assert!(store.delete("甘草").is_some());
    assert_eq!(store.delete("甘草"), None);
}

#[test]
fn equality_ignores_payload() {
    let mut a = medicine("杏仁");
    a.alias = String::from("苦杏仁");
    let mut b = medicine("杏仁");
    b.summary = String::from("止咳平喘");
    assert_eq!(a, b);
}

#[test]
fn malformed_text_means_empty_store() {
    // no terminating newline
    let mut db = Database::new("Medicines");
    db.read("name without newline");
    let store = Medicines::load(&db);
    assert_eq!(store.search("name without newline"), None);

    // a line count that is not a whole number of records
    let mut db2 = Database::new("Medicines");
    db2.read("a\nb\nc\n");
    let store2 = Medicines::load(&db2);
    assert_eq!(store2.search("a"), None);

    // a bad escape in a field
    let mut db3 = Database::new("Medicines");
    db3.read("ok\n\\x\n\n\n\n\n");
    let store3 = Medicines::load(&db3);
    assert_eq!(store3.search("ok"), None);
}

#[test]
fn colliding_names_mean_empty_store() {
    let mut db = Database::new("Medicines");
    db.read("dup\n\n\n\n\n\ndup\n\n\n\n\n\n");
    let store = Medicines::load(&db);
    assert_eq!(store.search("dup"), None);
}

#[test]
fn empty_text_means_empty_store() {
    let db = Database::new("Medicines");
    let store = Medicines::load(&db);
    assert_eq!(store.search("甘草"), None);
}

#[test]
fn database_tracks_dirty() {
    let mut db = Database::new("Notes");
    assert!(db.begin_write().is_none());
    db.read("on disk");
    assert!(db.begin_write().is_none());
    assert_eq!(db.data(), "on disk");
    db.update(String::from("fresh text"));
    assert_eq!(db.data(), "fresh text");
    assert_eq!(db.begin_write().expect("dirty text must be written"), "fresh text");
    db.finish_write();
    assert!(db.begin_write().is_none());
    assert_eq!(db.data(), "fresh text");
}

#[test]
fn unit_labels() {
    assert_eq!(WeightUnit::Zhu.to_text(), "铢");
    assert_eq!(WeightUnit::Liang.to_text(), "两");
    assert_eq!(WeightUnit::Jin.to_text(), "斤");
    assert_eq!(WeightUnit::Jun.to_text(), "钧");
    assert_eq!(WeightUnit::Shi.to_text(), "石");
    assert_eq!(VolumeUnit::Yue.to_text(), "龠");
    assert_eq!(VolumeUnit::Ge.to_text(), "合");
    assert_eq!(VolumeUnit::Sheng.to_text(), "升");
    assert_eq!(VolumeUnit::Dou.to_text(), "斗");
    assert_eq!(VolumeUnit::Hu.to_text(), "斛");
}

#[test]
fn prescript_identity() {
    let p = Prescript::new("四物汤");
    assert_eq!(p.to_text(), "名称：四物汤");
    assert!(p.prescript.is_empty());
    assert_eq!(p.usage, "");
    let mut q = Prescript::new("四物汤");
    q.usage = String::from("水煎服");
    assert_eq!(p, q);
    let stores = Prescripts::new();
    assert!(stores.records.is_empty());
}
