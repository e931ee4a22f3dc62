use volvelle_field::fe::Fe;
use volvelle_field::share::Share;

#[test]
fn share_holds_its_symbols_in_order() {
    let share = Share::new(vec![Some(Fe::from_bin(3)), None, Some(Fe::zero())]);
    assert_eq!(share.len(), 3);
    assert_eq!(share.get(0), Some(Fe::from_bin(3)));
    assert_eq!(share.get(1), None);
    assert_eq!(share.get(2), Some(Fe::zero()));
    assert_eq!(share.get(3), None);
}

#[test]
fn empty_share_has_no_symbols() {
    let share = Share::new(Vec::new());
    assert_eq!(share.len(), 0);
    assert_eq!(share.get(0), None);
}

#[test]
fn shares_compare_place_by_place() {
    let a = Share::new(vec![Some(Fe::one()), None]);
    let b = Share::new(vec![Some(Fe::one()), None]);
    let c = Share::new(vec![None, Some(Fe::one())]);
    let d = Share::new(vec![Some(Fe::one())]);
    let e = Share::new(vec![Some(Fe::one()), Some(Fe::zero())]);
    assert_eq!(a, b);
    assert_ne!(a, c);
    assert_ne!(a, d);
    assert_ne!(a, e);
    assert_eq!(a.clone(), a);
    assert_eq!(format!("{:?}", d), "Share([Some(Fe(1))])");
}
