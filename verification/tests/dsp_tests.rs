use dsp::buffers::ShiftRegister;
use dsp::dotproduct::dot;
use dsp::errors::DspError;
use dsp::pfb::PFB;

#[test]
fn test_shift_register_multipart() {
    let mut sr = ShiftRegister::<i32>::new(5);
    sr.push([0, 1, 2, 3, 4].as_ref());
    sr.push([5].as_ref());
    assert_eq!(sr.as_ref(), [1, 2, 3, 4, 5].as_ref())
}

#[test]
fn shift_register_starts_zero_filled() {
    let sr = ShiftRegister::<i64>::new(4);
    assert_eq!(sr.len(), 4);
    assert_eq!(sr.as_ref(), [0i64; 4].as_ref());
}

#[test]
fn shift_register_len_constant_across_pushes() {
    let mut sr = ShiftRegister::<i64>::new(3);
    assert_eq!(sr.len(), 3);
    sr.push([1].as_ref());
    assert_eq!(sr.len(), 3);
    assert_eq!(sr.as_ref().len(), 3);
    sr.push([2, 3, 4, 5].as_ref());
    assert_eq!(sr.len(), 3);
    assert_eq!(sr.as_ref().len(), 3);
    let empty: [i64; 0] = [];
    sr.push(empty.as_ref());
    assert_eq!(sr.len(), 3);
}

#[test]
fn shift_register_overflow_replacement() {
    let mut sr = ShiftRegister::<i64>::new(3);
    sr.push([1, 2, 3].as_ref());
    sr.push([10, 20, 30, 40, 50].as_ref());
    assert_eq!(sr.as_ref(), [30, 40, 50].as_ref());
}

#[test]
fn shift_register_empty_push_is_noop() {
    let mut sr = ShiftRegister::<i64>::new(3);
    sr.push([7, 8].as_ref());
    let before: Vec<i64> = sr.as_ref().to_vec();
    let empty: [i64; 0] = [];
    sr.push(empty.as_ref());
    assert_eq!(sr.as_ref(), before.as_slice());
    assert_eq!(sr.len(), 3);
}

#[test]
fn shift_register_zero_capacity() {
    let mut sr = ShiftRegister::<i64>::new(0);
    sr.push([1, 2, 3].as_ref());
    assert_eq!(sr.len(), 0);
    assert!(sr.as_ref().is_empty());
}

#[test]
fn pfb_concrete_example() {
    let taps = vec![0, 1, 2, 3, 4, 5, 6, 7, 8];
    let pfb = PFB::new(3, &taps).unwrap();
    assert_eq!([0, 3, 6].as_ref(), pfb.get(0).unwrap());
    assert_eq!([1, 4, 7].as_ref(), pfb.get(1).unwrap());
    assert_eq!([2, 5, 8].as_ref(), pfb.get(2).unwrap());
}

#[test]
fn pfb_uneven_arm_lengths() {
    let taps = vec![0, 1, 2, 3, 4, 5, 6, 7];
    let pfb = PFB::new(3, &taps).unwrap();
    assert_eq!([0, 3, 6].as_ref(), pfb.get(0).unwrap());
    assert_eq!([1, 4, 7].as_ref(), pfb.get(1).unwrap());
    assert_eq!([2, 5].as_ref(), pfb.get(2).unwrap());
}

#[test]
fn pfb_construction_failure() {
    let taps = vec![0, 1, 2];
    let r = PFB::new(5, &taps);
    assert!(matches!(r, Err(DspError::InsufficientTaps)));
    let zero_arms = PFB::new(0, &taps);
    assert!(matches!(zero_arms, Err(DspError::InsufficientTaps)));
}

#[test]
fn pfb_get_out_of_range() {
    let taps = vec![0, 1, 2, 3];
    let pfb = PFB::new(2, &taps).unwrap();
    assert!(pfb.get(2).is_none());
    assert!(pfb.get(100).is_none());
    assert_eq!(pfb.get(1).unwrap(), [1, 3].as_ref());
}

#[test]
fn pfb_index_out_of_range_is_error() {
    let taps = vec![0, 1, 2, 3];
    let pfb = PFB::new(2, &taps).unwrap();
    assert_eq!(pfb.index(0).ok(), Some([0, 2].as_ref()));
    assert!(matches!(pfb.index(2), Err(DspError::IndexOutOfRange)));
}

#[test]
fn pfb_round_robin_reconstructs_taps() {
    let taps = vec![10, 11, 12, 13, 14, 15, 16, 17];
    let n = 3;
    let pfb = PFB::new(n, &taps).unwrap();
    let mut rebuilt: Vec<i32> = Vec::new();
    let mut j = 0;
    while rebuilt.len() < taps.len() {
        for i in 0..n {
            let arm = pfb.get(i).unwrap();
            if j < arm.len() {
                rebuilt.push(arm[j]);
            }
        }
        j += 1;
    }
    assert_eq!(rebuilt, taps);
}

#[test]
fn dot_concrete() {
    let xs = [1, 2];
    let ys = [1, 2];
    assert_eq!(dot(&xs, &ys), Ok(5));
}

#[test]
fn dot_unequal_lengths_reports_mismatch() {
    let xs = [1; 1];
    let ys = [1; 2];
    assert_eq!(dot(&xs, &ys), Err(DspError::LengthMismatch));
}

#[test]
fn dot_empty_is_zero() {
    let xs: [i64; 0] = [];
    assert_eq!(dot(&xs, &xs), Ok(0));
}
