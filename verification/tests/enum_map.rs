use clogbox::enum_map::{EnumMap, EnumMapMut, EnumMapRef};
use clogbox::enums::Stereo;
use clogbox::filters::SvfOutput;

#[test]
fn new_get_set() {
    let mut m: EnumMap<SvfOutput, u32> = EnumMap::new(|o: SvfOutput| match o {
        SvfOutput::Lowpass => 10,
        SvfOutput::Bandpass => 20,
        SvfOutput::Highpass => 30,
    });
    assert_eq!(m.len(), 3);
    assert!(!m.is_empty());
    assert_eq!(*m.get(SvfOutput::Bandpass), 20);
    m.set(SvfOutput::Bandpass, 25);
    assert_eq!(*m.get(SvfOutput::Bandpass), 25);
    assert_eq!(*m.get(SvfOutput::Lowpass), 10);
    assert_eq!(*m.get(SvfOutput::Highpass), 30);
    assert_eq!(m.values(), &[10, 25, 30]);
    assert_eq!(m.into_inner(), vec![10, 25, 30]);
}

#[test]
fn dynamic_access_and_slices() {
    let mut m: EnumMap<Stereo, i32> = EnumMap::from_array(vec![-1, 1]);
    assert_eq!(m.runtime_len(), 2);
    assert_eq!(m.dyn_get(1), Some(&1));
    assert_eq!(m.dyn_get(2), None);
    m.values_mut()[0] = 7;
    assert_eq!(m.as_slice(), &[7, 1]);
    m.as_slice_mut()[1] = 8;
    assert_eq!(*m.as_ref().get(Stereo::Right), 8);
    assert_eq!(m.to_ref().as_slice(), &[7, 8]);
    m.set_all(vec![3, 4]);
    assert_eq!(m.values(), &[3, 4]);
}

#[test]
fn map_and_iter() {
    let m: EnumMap<Stereo, u8> = EnumMap::new(|s: Stereo| if s == Stereo::Left { 1 } else { 2 });
    let doubled = m.map(|_s: Stereo, v: u8| u16::from(v) * 100);
    let items = doubled.iter();
    assert_eq!(items.len(), 2);
    assert_eq!(items[0].0, Stereo::Left);
    assert_eq!(*items[0].1, 100);
    assert_eq!(items[1].0, Stereo::Right);
    assert_eq!(*items[1].1, 200);
}

#[test]
fn transpose_takes_first_error_in_key_order() {
    let ok: EnumMap<SvfOutput, Result<u8, &str>> = EnumMap::from_array(vec![Ok(1), Ok(2), Ok(3)]);
    let ok = ok.transpose().unwrap();
    assert_eq!(ok.values(), &[1, 2, 3]);
    let bad: EnumMap<SvfOutput, Result<u8, &str>> = EnumMap::from_array(vec![Ok(1), Err("b"), Err("h")]);
    assert_eq!(bad.transpose().err(), Some("b"));
}

#[test]
fn views_over_slices() {
    let data = [5u8, 6];
    let r: EnumMapRef<Stereo, u8> = EnumMapRef::from_slice(&data);
    assert_eq!(*r.get(Stereo::Right), 6);
    let mut data2 = [0u8, 0];
    {
        let mut w: EnumMapMut<Stereo, u8> = EnumMapMut::from_slice_mut(&mut data2);
        w.set(Stereo::Left, 9);
    }
    assert_eq!(data2, [9, 0]);
}

#[test]
fn writes_through_a_mutable_view() {
    let mut m: EnumMap<Stereo, u8> = EnumMap::from_array(vec![1, 2]);
    {
        let mut w = m.to_mut();
        w.set(Stereo::Right, 20);
    }
    {
        let mut w = m.as_mut();
        w.set(Stereo::Left, 10);
    }
    assert_eq!(m.values(), &[10, 20]);
}

#[test]
fn map_calls_in_key_order() {
    let m: EnumMap<SvfOutput, u8> = EnumMap::from_array(vec![1, 2, 3]);
    let seen = std::cell::RefCell::new(Vec::new());
    let _ = m.map(|k: SvfOutput, v: u8| {
        seen.borrow_mut().push(k);
        v
    });
    assert_eq!(seen.into_inner(), vec![SvfOutput::Lowpass, SvfOutput::Bandpass, SvfOutput::Highpass]);
}

#[test]
fn to_mut_writes_reach_the_map() {
    let mut map: EnumMap<SvfOutput, u32> = EnumMap::new(|c: SvfOutput| match c {
        SvfOutput::Lowpass => 10,
        SvfOutput::Bandpass => 20,
        SvfOutput::Highpass => 30,
    });
    {
        let mut mm = map.to_mut();
        let v = mm.data[0];
        mm.set(SvfOutput::Lowpass, v + 5);
    }
    assert_eq!(*map.get(SvfOutput::Lowpass), 15);
    assert_eq!(*map.get(SvfOutput::Bandpass), 20);
    assert_eq!(*map.get(SvfOutput::Highpass), 30);
}

#[test]
fn iter_mut_writes_reach_the_map() {
    let mut m: EnumMap<SvfOutput, u32> = EnumMap::from_array(vec![1, 2, 3]);
    for (key, value) in m.iter_mut() {
        if key != SvfOutput::Bandpass {
            *value *= 10;
        }
    }
    assert_eq!(m.values(), &[10, 2, 30]);
}
