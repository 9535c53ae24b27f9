use audio8_runtime::cache::{
    fill_cells, update_cache_at_positions, update_caches, write_delta_into_tensor, FixedKvCache, HalfArray,
};

fn counted(sides: (usize, usize, usize, usize), from: u16) -> HalfArray {
    let n = sides.0 * sides.1 * sides.2 * sides.3;
    HalfArray::from_values(sides, (0..n).map(|i| from + i as u16).collect()).unwrap()
}

#[test]
fn arrays_are_laid_out_row_by_row() {
    let a = counted((1, 2, 3, 4), 0);
    assert_eq!(a.shape(), (1, 2, 3, 4));
    assert_eq!(a.at(0, 1, 2, 3), 23);
    assert_eq!(a.at(0, 1, 0, 2), 14);
    assert_eq!(a.to_values(), (0..24).collect::<Vec<u16>>());
    assert!(HalfArray::from_values((1, 2, 3, 4), vec![0; 23]).is_none());
    assert!(HalfArray::from_values((0, usize::MAX, 2, 1), vec![]).is_none());
    let z = HalfArray::zeros((1, 2, 2, 2));
    assert_eq!(z.to_values(), vec![0; 8]);
    assert_eq!(HalfArray::zeros((0, 3, 4, 5)).to_values(), Vec::<u16>::new());
}

#[test]
fn writes_are_read_back_and_leave_the_rest() {
    let mut cache = counted((1, 2, 5, 2), 100);
    let before = counted((1, 2, 5, 2), 100);
    let delta = counted((1, 2, 2, 2), 1);
    update_cache_at_positions(&mut cache, &delta, &[3, 1]);
    for h in 0..2 {
        for d in 0..2 {
            assert_eq!(cache.at(0, h, 3, d), delta.at(0, h, 0, d));
            assert_eq!(cache.at(0, h, 1, d), delta.at(0, h, 1, d));
            for p in [0, 2, 4] {
                assert_eq!(cache.at(0, h, p, d), before.at(0, h, p, d));
            }
        }
    }
}

#[test]
fn the_last_of_two_writes_stays() {
    let mut cache = HalfArray::zeros((1, 1, 2, 1));
    let delta = counted((1, 1, 3, 1), 7);
    update_cache_at_positions(&mut cache, &delta, &[1, 1, 0]);
    assert_eq!(cache.to_values(), vec![9, 8]);
}

#[test]
fn cells_are_cleared() {
    let mut cells = vec![3u8, 4, 5];
    fill_cells(&mut cells, 0);
    assert_eq!(cells, vec![0, 0, 0]);
}

#[test]
fn nothing_to_write() {
    let mut empty = HalfArray::zeros((0, 2, 3, 4));
    update_cache_at_positions(&mut empty, &HalfArray::zeros((0, 0, 0, 0)), &[]);
    let mut flat = HalfArray::zeros((1, 2, 3, 0));
    update_cache_at_positions(&mut flat, &HalfArray::zeros((1, 1, 1, 1)), &[-7, 99]);
    assert_eq!(flat.shape(), (1, 2, 3, 0));
}

#[test]
fn one_column_in_a_slice() {
    let mut cells: Vec<i32> = (0..12).collect();
    write_delta_into_tensor(&mut cells, 2, 3, 2, &[-1, -2, -3, -4], 1);
    assert_eq!(cells, vec![0, 1, -1, -2, 4, 5, 6, 7, -3, -4, 10, 11]);
}

#[test]
fn both_ways_of_writing_a_column_agree() {
    for position in 0..4usize {
        let mut cache = counted((1, 3, 4, 2), 50);
        let mut cells = cache.to_values();
        let delta = counted((1, 3, 1, 2), 900);
        update_cache_at_positions(&mut cache, &delta, &[position as i64]);
        write_delta_into_tensor(&mut cells, 3, 4, 2, &delta.to_values(), position);
        assert_eq!(cache.to_values(), cells);
    }
}

#[test]
fn every_cache_gets_its_own_delta() {
    let mut caches = vec![HalfArray::zeros((1, 1, 2, 1)), HalfArray::zeros((1, 1, 3, 1))];
    let deltas = vec![counted((1, 1, 1, 1), 4), counted((1, 1, 1, 1), 5)];
    update_caches(&mut caches, &deltas, &[1]);
    assert_eq!(caches[0].to_values(), vec![0, 4]);
    assert_eq!(caches[1].to_values(), vec![0, 5, 0]);
}

#[test]
fn parts_of_a_fixed_cache() {
    let c = FixedKvCache::new(1, 2, 10, 64);
    assert_eq!(c.shape(), (1, 2, 10, 64));
    assert_eq!(c.write(&[3, 4, 5]).unwrap(), ((0, 1), (0, 2), (3, 6), (0, 64)));
    assert_eq!(c.write(&[9]).unwrap().2, (9, 10));
    assert!(c.write(&[9, 10]).is_err());
    assert_eq!(c.read(0).unwrap().2, (0, 0));
    assert_eq!(c.read(10).unwrap(), ((0, 1), (0, 2), (0, 10), (0, 64)));
    assert_eq!(c.read(11).unwrap_err().asked, 11);
    assert_eq!(c.zero_position(9).unwrap().2, (9, 10));
    let e = c.zero_position(10).unwrap_err();
    assert_eq!((e.asked, e.max_len), (10, 10));
}

#[test]
fn a_step_sees_history_and_news() {
    let c = FixedKvCache::new(1, 1, 8, 1);
    let mut rows: Vec<i32> = vec![90, 91, 92, 93, 94, 95, 96, 97];
    // Older rows lie at all positions; each step overwrites its own first.
    for p in 0..5usize {
        let part = c.write(&[p]).unwrap();
        rows[part.2 .0] = p as i32;
        let seen = c.read(p + 1).unwrap();
        let expected: Vec<i32> = (0..=p as i32).collect();
        assert_eq!(rows[seen.2 .0..seen.2 .1].to_vec(), expected);
    }
}
