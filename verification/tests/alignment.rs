use dbus_wire::utils::{adjust_padding, align_counter};

#[test]
fn test_adjust_padding() {
    let mut buf = vec![];

    // empty buffer is all aligned
    adjust_padding(&mut buf, 1);
    assert_eq!(buf.len(), 0);
    assert_eq!(buf, vec![]);
    adjust_padding(&mut buf, 3);
    assert_eq!(buf.len(), 0);
    assert_eq!(buf, vec![]);
    adjust_padding(&mut buf, 8);
    assert_eq!(buf.len(), 0);
    assert_eq!(buf, vec![]);

    let mut buf = vec![1, 2, 3, 4];

    // align 1 should never change buffer, as everything is 1 byte aligned
    adjust_padding(&mut buf, 1);
    assert_eq!(buf.len(), 4);
    assert_eq!(buf, vec![1, 2, 3, 4]);

    // 4 aligned buffer should not have any changes
    adjust_padding(&mut buf, 4);
    assert_eq!(buf.len(), 4);
    assert_eq!(buf, vec![1, 2, 3, 4]);

    adjust_padding(&mut buf, 3);
    assert_eq!(buf.len(), 6);
    assert_eq!(buf, vec![1, 2, 3, 4, 0, 0]);

    let mut buf = vec![1, 2, 3, 4];
    adjust_padding(&mut buf, 8);
    assert_eq!(buf.len(), 8);
    assert_eq!(buf, vec![1, 2, 3, 4, 0, 0, 0, 0]);

    let mut buf = vec![1, 2, 3];
    adjust_padding(&mut buf, 4);
    assert_eq!(buf.len(), 4);
    assert_eq!(buf, vec![1, 2, 3, 0]);
}

#[test]
fn pad_to_one_is_noop() {
    for n in 0..20usize {
        let mut buf: Vec<u8> = (0..n as u8).collect();
        let copy = buf.clone();
        adjust_padding(&mut buf, 1);
        assert_eq!(buf, copy);
    }
}

#[test]
fn pad_to_aligns_and_appends_zeros() {
    for n in 0..20usize {
        for align in 1..10usize {
            let mut buf: Vec<u8> = vec![0xAB; n];
            adjust_padding(&mut buf, align);
            assert_eq!(buf.len() % align, 0);
            assert!(buf.len() >= n && buf.len() - n < align);
            assert!(buf[n..].iter().all(|b| *b == 0));
        }
    }
}

#[test]
fn align_counter_smallest_aligned() {
    for c in 0..40usize {
        for align in 1..10usize {
            let mut ctr = c;
            align_counter(&mut ctr, align);
            assert!(ctr >= c);
            assert_eq!(ctr % align, 0);
            // nothing between the old and the new cursor is aligned
            for d in c..ctr {
                assert_ne!(d % align, 0);
            }
        }
    }
}
