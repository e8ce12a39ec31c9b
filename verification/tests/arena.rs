use decurse::PinnedVec;

fn check_both(normal: &Vec<i32>, pinned: &PinnedVec<i32>) {
    let len = normal.len();
    assert_eq!(len, pinned.len());
    for i in 0..len {
        assert_eq!(normal.get(i), pinned.get(i));
    }
    assert_eq!(pinned.get(len), None);
}

#[test]
fn basic() {
    let mut a = PinnedVec::new();
    a.push(1);
    a.push(2);
    a.push(3);
    a.push(4);
    assert_eq!(a.len(), 4);
    assert_eq!(*a.get(0).unwrap(), 1);
    assert_eq!(*a.get(1).unwrap(), 2);
    assert_eq!(*a.get(2).unwrap(), 3);
    assert_eq!(*a.get(3).unwrap(), 4);
    assert_eq!(a.get(4), None);
    a.push(5);
    a.push(6);
    a.push(7);
    assert_eq!(a.len(), 7);
    assert_eq!(*a.get(4).unwrap(), 5);
    assert_eq!(*a.get(5).unwrap(), 6);
    assert_eq!(*a.get(6).unwrap(), 7);
    a.pop();
    assert_eq!(a.len(), 6);
    a.pop();
    assert_eq!(a.len(), 5);
    a.pop();
    assert_eq!(a.len(), 4);
    assert_eq!(a.get(4), None);
    assert_eq!(*a.get(0).unwrap(), 1);
    assert_eq!(*a.get(1).unwrap(), 2);
    assert_eq!(*a.get(2).unwrap(), 3);
    assert_eq!(*a.get(3).unwrap(), 4);
}

#[test]
fn pinned_vec_one() {
    let mut normal: Vec<i32> = Vec::new();
    let mut pinned: PinnedVec<i32> = PinnedVec::new();
    for i in 0..100 {
        for j in 0..i {
            normal.push(j);
            pinned.push(j);
        }
        check_both(&normal, &pinned);
        for _ in 0..(i - 2) {
            normal.pop();
            pinned.pop();
        }
        check_both(&normal, &pinned);
    }
}

#[test]
fn lib_one() {
    let mut normal: Vec<i32> = Vec::new();
    let mut pinned: PinnedVec<i32> = PinnedVec::new();
    for i in 0..200 {
        for j in 0..i {
            normal.push(j);
            pinned.push(j);
        }
        check_both(&normal, &pinned);
        for _ in 0..(i - 2) {
            normal.pop();
            pinned.pop();
        }
        check_both(&normal, &pinned);
        for j in (0..(i / 5)).map(|x| x * 3) {
            normal[j as usize] = -j;
            pinned.replace(j as usize, -j);
        }
        check_both(&normal, &pinned);
    }
}

#[test]
fn two() {
    let mut normal: Vec<i32> = Vec::new();
    let mut pinned: PinnedVec<i32> = PinnedVec::new();
    for x in [1, 2, 3, 4] {
        normal.push(x);
        pinned.push(x);
    }
    check_both(&normal, &pinned);
    for x in [5, 6, 7] {
        normal.push(x);
        pinned.push(x);
    }
    check_both(&normal, &pinned);
    for _ in 0..4 {
        normal.pop();
        pinned.pop();
        check_both(&normal, &pinned);
    }
    normal.push(5);
    pinned.push(5);
    check_both(&normal, &pinned);
}

#[test]
fn test() {
    let mut v = PinnedVec::new();
    v.push(5);
    {
        let r: &i32 = v.get(0).unwrap();
        assert_eq!(*r, 5);
    }
    {
        let r: &mut i32 = v.get_mut(0).unwrap();
        assert_eq!(*r, 5);
    }
    assert_eq!(v.len(), 1);
    v.pop();
    v.push(7);
    v.push(8);
    v.replace(0, 6);
    assert_eq!(*v.get(0).unwrap(), 6);
    assert_eq!(*v.get(1).unwrap(), 8);
}

#[test]
fn reads_survive_later_pushes() {
    let mut v = PinnedVec::new();
    for x in 0..50 {
        v.push(x * 10);
    }
    let before: Vec<i32> = (0..50).map(|i| *v.get(i).unwrap()).collect();
    for x in 50..500 {
        v.push(x * 10);
    }
    for i in 0..50 {
        assert_eq!(*v.get(i).unwrap(), before[i]);
    }
    for _ in 0..400 {
        v.pop();
    }
    for i in 0..50 {
        assert_eq!(*v.get(i).unwrap(), before[i]);
    }
}

#[test]
fn writes_land_on_one_slot() {
    let mut v = PinnedVec::new();
    for x in 0..10 {
        v.push(x);
    }
    *v.get_mut(3).unwrap() = 33;
    assert_eq!(*v.get(3).unwrap(), 33);
    for i in 0..10 {
        if i != 3 {
            assert_eq!(*v.get(i).unwrap(), i as i32);
        }
    }
    assert!(v.get_mut(10).is_none());
}

#[test]
fn capacity_doubles_by_blocks() {
    let mut v: PinnedVec<u8> = PinnedVec::new();
    assert_eq!(v.len(), 0);
    assert_eq!(v.capacity(), 0);
    assert_eq!(v.get(0), None);
    v.push(1);
    assert_eq!(v.capacity(), 1);
    v.push(2);
    assert_eq!(v.capacity(), 3);
    v.push(3);
    assert_eq!(v.capacity(), 3);
    v.push(4);
    assert_eq!(v.capacity(), 7);
    for x in 5..8 {
        v.push(x);
    }
    assert_eq!(v.capacity(), 7);
    v.push(8);
    assert_eq!(v.capacity(), 15);
    v.pop();
    assert_eq!(v.capacity(), 15);
    assert_eq!(v.len(), 7);
}
