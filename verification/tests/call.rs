use neon::call::{
    data, get, get_isolate, is_construct, len, set_return, this, CCallback, FunctionCallbackInfo,
};
use neon::raw::{Isolate, Local};

fn info(arguments: Vec<Local>, construct: bool) -> FunctionCallbackInfo {
    FunctionCallbackInfo::new(
        Isolate { address: 3 },
        Local { handle: 10 },
        Local { handle: 11 },
        arguments,
        construct,
    )
    .unwrap()
}

#[test]
fn call_record_hands_out_what_it_holds() {
    let record = info(vec![Local { handle: 20 }, Local { handle: 21 }], false);
    assert_eq!(get_isolate(&record), Isolate { address: 3 });
    assert!(!is_construct(&record));
    assert_eq!(len(&record), 2);
    let mut out = Local::null();
    this(&record, &mut out);
    assert_eq!(out, Local { handle: 10 });
    data(&record, &mut out);
    assert_eq!(out, Local { handle: 11 });
    get(&record, 0, &mut out);
    assert_eq!(out, Local { handle: 20 });
    get(&record, 1, &mut out);
    assert_eq!(out, Local { handle: 21 });
}

#[test]
fn missing_argument_is_not_filled_in() {
    let record = info(vec![Local { handle: 20 }], true);
    assert!(is_construct(&record));
    assert_eq!(record.argument(0), Some(Local { handle: 20 }));
    assert_eq!(record.argument(1), None);
    assert_eq!(record.argument(-1), None);
    assert_eq!(record.argument(i32::MIN), None);
    let empty = info(Vec::new(), false);
    assert_eq!(len(&empty), 0);
    assert_eq!(empty.argument(0), None);
}

#[test]
fn return_value_is_the_last_one_set() {
    let mut record = info(Vec::new(), false);
    assert_eq!(record.returned(), None);
    set_return(&mut record, Local { handle: 5 });
    assert_eq!(record.returned(), Some(Local { handle: 5 }));
    set_return(&mut record, Local { handle: 6 });
    assert_eq!(record.returned(), Some(Local { handle: 6 }));
    assert_eq!(len(&record), 0);
}

#[test]
fn callback_pair_is_the_same_under_both_names() {
    let callback: neon::raw::CCallback = CCallback::default();
    assert_eq!(callback, CCallback { static_callback: 0, dynamic_callback: 0 });
}
