use rarity::{AudioBuffer, AudioBufferMut, AudioBufferRef, Sample};

#[derive(Clone, Copy, PartialEq, Debug)]
struct F(f64);

impl Sample for F {
    fn silence() -> F {
        F(0.0)
    }
    fn mix(self, other: F) -> F {
        F(self.0 + other.0)
    }
}

fn frames_of_view(view: &AudioBufferRef<'_, F>) -> Vec<(f64, f64)> {
    let mut out = Vec::new();
    let mut it = view.iter();
    while let Some((l, r)) = it.next() {
        out.push((l.0, r.0));
    }
    out
}

fn write(view: &mut AudioBufferMut<'_, F>, frames: &[(f64, f64)]) {
    for (i, (l, r)) in frames.iter().enumerate() {
        view.set_frame(i, F(*l), F(*r));
    }
}

#[test]
fn new_buffer_is_silent_with_cursor_at_start() {
    let b = AudioBuffer::<F>::new(4);
    assert_eq!(b.len(), 4);
    assert!(!b.is_empty());
    assert_eq!(b.cursor(), 0);
    let v = b.next_n_frames_ref(4);
    assert_eq!(frames_of_view(&v), vec![(0.0, 0.0); 4]);
}

#[test]
fn written_frames_read_back_across_the_wrap() {
    let mut b = AudioBuffer::<F>::new(4);
    {
        let mut w = b.next_n_frames_mut(3);
        write(&mut w, &[(1.0, 2.0), (3.0, 4.0), (5.0, 6.0)]);
    }
    assert_eq!(frames_of_view(&b.next_n_frames_ref(3)), vec![(1.0, 2.0), (3.0, 4.0), (5.0, 6.0)]);
    b.forward(3);
    assert_eq!(b.cursor(), 3);
    {
        let mut w = b.next_n_frames_mut(3);
        assert_eq!(w.head.len(), 2);
        assert_eq!(w.tail.len(), 4);
        write(&mut w, &[(7.0, 8.0), (9.0, 10.0), (11.0, 12.0)]);
    }
    let r = b.next_n_frames_ref(3);
    assert_eq!(frames_of_view(&r), vec![(7.0, 8.0), (9.0, 10.0), (11.0, 12.0)]);
    // the one frame outside the window is untouched
    b.forward(3);
    assert_eq!(b.cursor(), 2);
    assert_eq!(frames_of_view(&b.next_n_frames_ref(1)), vec![(5.0, 6.0)]);
}

#[test]
fn forward_wraps_modulo_capacity() {
    let mut b = AudioBuffer::<i32>::new(5);
    b.forward(7);
    assert_eq!(b.cursor(), 2);
    b.forward(usize::MAX);
    assert_eq!(b.cursor(), (2 + usize::MAX % 5) % 5);
    b.forward(0);
    assert_eq!(b.cursor(), (2 + usize::MAX % 5) % 5);
}

fn ring_with(frames: &[(f64, f64)], cursor: usize) -> AudioBuffer<F> {
    let mut b = AudioBuffer::<F>::new(frames.len());
    {
        let mut w = b.next_n_frames_mut(frames.len());
        write(&mut w, frames);
    }
    b.forward(cursor);
    b
}

fn mut_frames(view: &AudioBufferMut<'_, F>) -> Vec<(f64, f64)> {
    (0..view.len()).map(|i| view.frame(i)).map(|(l, r)| (l.0, r.0)).collect()
}

const SIX: [(f64, f64); 6] = [(0.0, 0.5), (1.0, 1.5), (2.0, 2.5), (3.0, 3.5), (4.0, 4.5), (5.0, 5.5)];

#[test]
fn split_at_every_mid_reads_back_the_whole_view() {
    for cursor in 0..6 {
        for len in 0..=6 {
            let b = ring_with(&SIX, cursor);
            let view = b.next_n_frames_ref(len);
            let whole = frames_of_view(&view);
            let want: Vec<(f64, f64)> = (0..len).map(|k| SIX[(cursor + k) % 6]).collect();
            assert_eq!(whole, want);
            assert_eq!(view.len(), len);
            assert_eq!(view.is_empty(), len == 0);
            for mid in 0..=len {
                let (l, r) = view.split_at(mid);
                assert_eq!(l.len(), mid);
                assert_eq!(r.len(), len - mid);
                let mut joined = frames_of_view(&l);
                joined.extend(frames_of_view(&r));
                assert_eq!(joined, whole);
            }
        }
    }
}

#[test]
fn split_at_mut_every_mid_writes_through_to_the_ring() {
    for cursor in 0..6 {
        for len in 0..=6 {
            for mid in 0..=len {
                let mut b = ring_with(&SIX, cursor);
                {
                    let view = b.next_n_frames_mut(len);
                    let whole = mut_frames(&view);
                    let (mut l, mut r) = view.split_at_mut(mid);
                    assert_eq!(l.len(), mid);
                    assert_eq!(r.len(), len - mid);
                    let mut joined = mut_frames(&l);
                    joined.extend(mut_frames(&r));
                    assert_eq!(joined, whole);
                    for i in 0..l.len() {
                        l.set_frame(i, F(100.0 + i as f64), F(-1.0));
                    }
                    for i in 0..r.len() {
                        r.set_frame(i, F(200.0 + i as f64), F(-2.0));
                    }
                }
                let after = frames_of_view(&b.next_n_frames_ref(6));
                for k in 0..6 {
                    let want = if k < mid {
                        (100.0 + k as f64, -1.0)
                    } else if k < len {
                        (200.0 + (k - mid) as f64, -2.0)
                    } else {
                        SIX[(cursor + k) % 6]
                    };
                    assert_eq!(after[k], want, "cursor {} len {} mid {} frame {}", cursor, len, mid, k);
                }
            }
        }
    }
}

#[test]
fn a_view_is_one_slice_unless_it_wraps() {
    let mut b = ring_with(&SIX, 4);
    {
        let v = b.next_n_frames_mut(2);
        assert_eq!((v.head.len(), v.tail.len()), (4, 0));
    }
    {
        let v = b.next_n_frames_mut(3);
        assert_eq!((v.head.len(), v.tail.len()), (4, 2));
    }
    let v = b.next_n_frames_mut(0);
    assert!(v.is_empty());
}

#[test]
fn clear_copy_and_mix_work_frame_by_frame() {
    let source = ring_with(&SIX, 5);
    let mut b = ring_with(&SIX, 2);
    {
        let mut w = b.next_n_frames_mut(5);
        w.mix_from(&source.next_n_frames_ref(3));
        assert_eq!(mut_frames(&w), vec![(7.0, 8.0), (3.0, 4.0), (5.0, 6.0), (5.0, 5.5), (0.0, 0.5)]);
        w.copy_from(&source.next_n_frames_ref(2));
        assert_eq!(mut_frames(&w), vec![(5.0, 5.5), (0.0, 0.5), (5.0, 6.0), (5.0, 5.5), (0.0, 0.5)]);
        w.clear();
        assert_eq!(mut_frames(&w), vec![(0.0, 0.0); 5]);
    }
    assert_eq!(frames_of_view(&b.next_n_frames_ref(6)), vec![(0.0, 0.0), (0.0, 0.0), (0.0, 0.0), (0.0, 0.0), (0.0, 0.0), (1.0, 1.5)]);
    // a longer source is read only as far as the view goes
    let mut small = AudioBuffer::<F>::new(2);
    small.next_n_frames_mut(2).copy_from(&source.next_n_frames_ref(6));
    assert_eq!(frames_of_view(&small.next_n_frames_ref(2)), vec![(5.0, 5.5), (0.0, 0.5)]);
}

#[test]
fn iterator_counts_down_what_is_left() {
    let b = ring_with(&SIX, 5);
    let v = b.next_n_frames_ref(3);
    let mut it = v.iter();
    assert_eq!(it.size_hint(), (3, Some(3)));
    assert_eq!(it.next().map(|(l, r)| (l.0, r.0)), Some((5.0, 5.5)));
    assert_eq!(it.size_hint(), (2, Some(2)));
    assert_eq!(it.next().map(|(l, r)| (l.0, r.0)), Some((0.0, 0.5)));
    assert_eq!(it.next().map(|(l, r)| (l.0, r.0)), Some((1.0, 1.5)));
    assert_eq!(it.size_hint(), (0, Some(0)));
    assert!(it.next().is_none());
    assert!(it.next().is_none());
    let copy = v;
    assert_eq!(v.frame(2), (F(1.0), F(1.5)));
    assert_eq!(copy.clone().len(), 3);
}

#[test]
fn views_over_plain_slices_need_whole_frames() {
    let a = [F(1.0), F(2.0), F(3.0), F(4.0)];
    let b = [F(5.0), F(6.0)];
    let v = AudioBufferRef::from_slices(&a, &b).unwrap();
    assert_eq!(frames_of_view(&v), vec![(1.0, 2.0), (3.0, 4.0), (5.0, 6.0)]);
    assert!(AudioBufferRef::from_slices(&a[..3], &b).is_none());
    assert!(AudioBufferRef::from_slices(&a, &b[..1]).is_none());
    assert_eq!(AudioBufferRef::<F>::from_slices(&[], &[]).unwrap().len(), 0);
}

#[test]
fn a_cursor_lends_each_frame_to_write_and_gives_the_view_back() {
    let mut b = ring_with(&SIX, 4);
    {
        let view = b.next_n_frames_mut(4);
        let mut it = view.into_iter();
        let mut k = 0.0;
        while let Some((l, r)) = it.next() {
            assert_eq!((l.0, r.0), SIX[(4 + k as usize) % 6]);
            *l = F(l.0 + 100.0);
            *r = F(k);
            k += 1.0;
            if k == 3.0 {
                break;
            }
        }
        assert_eq!(it.pos, 3);
        let mut view = it.into_mut();
        assert_eq!(mut_frames(&view), vec![(104.0, 0.0), (105.0, 1.0), (100.0, 2.0), (1.0, 1.5)]);
        view.set_frame(3, F(-1.0), F(-1.0));
        let mut it = view.into_iter();
        for _ in 0..4 {
            assert!(it.next().is_some());
        }
        assert!(it.next().is_none());
        assert!(it.next().is_none());
        assert_eq!(it.pos, 4);
    }
    assert_eq!(
        frames_of_view(&b.next_n_frames_ref(6)),
        vec![(104.0, 0.0), (105.0, 1.0), (100.0, 2.0), (-1.0, -1.0), (2.0, 2.5), (3.0, 3.5)]
    );
}

#[test]
fn successive_blocks_read_back_as_one_run() {
    let mut b = AudioBuffer::<F>::new(7);
    b.forward(5);
    let mut written = Vec::new();
    let mut next = 0.0;
    for len in [3usize, 0, 2, 1] {
        let chunk: Vec<(f64, f64)> = (0..len).map(|k| (next + k as f64, -(next + k as f64))).collect();
        next += len as f64;
        {
            let mut w = b.next_n_frames_mut(len);
            write(&mut w, &chunk);
        }
        assert_eq!(frames_of_view(&b.next_n_frames_ref(len)), chunk);
        written.extend(chunk);
        b.forward(len);
    }
    assert_eq!(b.cursor(), (5 + 6) % 7);
    b.forward(7 - 6);
    assert_eq!(b.cursor(), 5);
    assert_eq!(frames_of_view(&b.next_n_frames_ref(6)), written);
}

#[test]
fn a_writing_cursor_counts_down_what_is_left() {
    let mut b = AudioBuffer::<F>::new(5);
    let view = b.next_n_frames_mut(3);
    let mut it = view.into_iter();
    assert_eq!(it.size_hint(), (3, Some(3)));
    assert!(it.next().is_some());
    assert_eq!(it.size_hint(), (2, Some(2)));
    assert!(it.next().is_some());
    assert!(it.next().is_some());
    assert_eq!(it.size_hint(), (0, Some(0)));
    assert!(it.next().is_none());
    assert_eq!(it.size_hint(), (0, Some(0)));
    let mut none = b.next_n_frames_mut(0);
    assert!(none.is_empty());
    none.clear();
    assert_eq!(none.into_iter().size_hint(), (0, Some(0)));
}

#[test]
fn blocks_that_fill_the_ring_read_back_in_the_order_written() {
    for start in 0..5 {
        for cut in [[0, 5, 0], [2, 0, 3], [1, 1, 3], [4, 1, 0], [5, 0, 0]] {
            let mut b = AudioBuffer::<F>::new(5);
            b.forward(start);
            let mut written = Vec::new();
            for frames in cut {
                let block: Vec<(f64, f64)> = (0..frames).map(|k| ((written.len() + k) as f64, -(k as f64))).collect();
                {
                    let mut w = b.next_n_frames_mut(frames);
                    write(&mut w, &block);
                }
                b.forward(frames);
                written.extend(block);
            }
            assert_eq!(b.cursor(), start);
            assert_eq!(frames_of_view(&b.next_n_frames_ref(5)), written);
        }
    }
}
