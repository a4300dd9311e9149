use vstd::prelude::*;
use vstd::string::*;
use crate::events::KeyInput;
use crate::geometry::Coord;

verus! {

/// A vertical list of labelled choices with one of them selected.
pub struct Menu<T: Clone> {
    items: Vec<(String, T)>,
    current_index: usize,
}

/// What the menu draws for one entry: an arrow before it when it is
/// selected, then its label from column 2, bold when selected.
pub open spec fn entry_cells(label: Seq<char>, row: int, selected: bool) -> Seq<((int, int), char, bool)> {
    (if selected { seq![((0int, row), '>', true)] } else { Seq::empty() }) + Seq::new(
        label.len(),
        |j: int| ((j + 2, row), label[j], selected),
    )
}

/// What the menu draws for its first `n` entries, entry by entry.
pub open spec fn menu_cells(labels: Seq<Seq<char>>, current: int, n: nat) -> Seq<((int, int), char, bool)>
    decreases n,
{
    if n == 0 {
        Seq::empty()
    } else {
        menu_cells(labels, current, (n - 1) as nat) + entry_cells(labels[n - 1], n - 1, n - 1 == current)
    }
}

/// The selection is marked on exactly its own row: every drawn square is
/// bold exactly when it lies on the selected row, a '>' stands only in
/// column 0 of the selected row, and when the selected entry is drawn the
/// '>' is there.
pub proof fn lemma_menu_cells_mark_selection(labels: Seq<Seq<char>>, current: int, n: nat)
    requires
        n <= labels.len(),
    ensures
        forall|k: int|
            0 <= k < menu_cells(labels, current, n).len() ==> {
                let e = #[trigger] menu_cells(labels, current, n)[k];
                &&& e.2 == (e.0.1 == current)
                &&& 0 <= e.0.1 < n
                &&& (e.0.0 == 0 ==> e == ((0int, current), '>', true))
            },
        0 <= current < n ==> menu_cells(labels, current, n).contains(((0int, current), '>', true)),
    decreases n,
{
    if n > 0 {
        let prev = menu_cells(labels, current, (n - 1) as nat);
        let row = n - 1;
        let entry = entry_cells(labels[row], row, row == current);
        lemma_menu_cells_mark_selection(labels, current, (n - 1) as nat);
        let all = menu_cells(labels, current, n);
        assert(all == prev + entry);
        assert forall|k: int| 0 <= k < all.len() implies {
            let e = #[trigger] all[k];
            &&& e.2 == (e.0.1 == current)
            &&& 0 <= e.0.1 < n
            &&& (e.0.0 == 0 ==> e == ((0int, current), '>', true))
        } by {
            if k < prev.len() {
                assert(all[k] == prev[k]);
            } else {
                assert(all[k] == entry[k - prev.len()]);
            }
        }
        if 0 <= current < n {
            if current == row {
                assert(entry[0] == ((0int, current), '>', true));
                assert(all[prev.len() as int] == ((0int, current), '>', true));
            } else {
                let k = choose|k: int| 0 <= k < prev.len() && prev[k] == ((0int, current), '>', true);
                assert(all[k] == prev[k]);
            }
        }
    }
}

/// A drawn square as plain values.
pub open spec fn drawn(d: (Coord, char, bool)) -> ((int, int), char, bool) {
    (d.0.pos(), d.1, d.2)
}

/// Every drawn square of a list as plain values.
pub open spec fn drawn_all(v: Seq<(Coord, char, bool)>) -> Seq<((int, int), char, bool)> {
    v.map_values(|d: (Coord, char, bool)| drawn(d))
}

/// What a key does to a menu: up selects the entry above, down the entry
/// below (staying on the last), return yields a clone of the selected value;
/// the entries never change and only up and down change the selection.
pub open spec fn menu_step<T: Clone>(before: Menu<T>, after: Menu<T>, input: Option<KeyInput>, r: Option<T>) -> bool {
    &&& after.labels() == before.labels()
    &&& after.values() == before.values()
    &&& match input {
        Some(KeyInput::Up) => r is None && after.current() == before.current() - 1,
        Some(KeyInput::Down) => r is None && after.current() == if before.current() + 1 < before.values().len() {
            before.current() + 1
        } else {
            before.values().len() - 1
        },
        Some(KeyInput::Return) => r matches Some(v) && cloned(before.values()[before.current()], v) && after == before,
        _ => r is None && after == before,
    }
}

/// Moving the selection down and then up again comes back to the same entry,
/// unless the selection was already on the last entry.
pub proof fn lemma_down_then_up<T: Clone>(
    m0: Menu<T>,
    m1: Menu<T>,
    m2: Menu<T>,
    r1: Option<T>,
    r2: Option<T>,
)
    requires
        m0.wf(),
        m0.current() + 1 < m0.values().len(),
        menu_step(m0, m1, Some(KeyInput::Down), r1),
        menu_step(m1, m2, Some(KeyInput::Up), r2),
    ensures
        m2.current() == m0.current(),
        m2.labels() == m0.labels(),
        m2.values() == m0.values(),
        r1 is None && r2 is None,
{
}

impl<T: Clone> Menu<T> {
    /// The labels of the entries, in order.
    pub closed spec fn labels(self) -> Seq<Seq<char>> {
        self.items@.map_values(|e: (String, T)| e.0@)
    }

    /// The values of the entries, in order.
    pub closed spec fn values(self) -> Seq<T> {
        self.items@.map_values(|e: (String, T)| e.1)
    }

    /// The index of the selected entry.
    pub closed spec fn current(self) -> int {
        self.current_index as int
    }

    /// The selected entry is an entry, or the menu is empty and the selection is 0.
    pub open spec fn wf(self) -> bool {
        &&& self.labels().len() == self.values().len()
        &&& (self.current() < self.values().len() || (self.values().len() == 0 && self.current() == 0))
        &&& 0 <= self.current()
    }

    /// A menu of `items` with the first entry selected.
    pub fn new(items: Vec<(String, T)>) -> (m: Self)
        ensures
            m.wf(),
            m.labels() == items@.map_values(|e: (String, T)| e.0@),
            m.values() == items@.map_values(|e: (String, T)| e.1),
            m.current() == 0,
    {
        Self { items, current_index: 0 }
    }

    /// The index of the selected entry.
    pub fn current_index(&self) -> (i: usize)
        ensures
            i == self.current(),
    {
        self.current_index
    }

    /// The number of entries.
    pub fn len(&self) -> (n: usize)
        ensures
            n == self.values().len(),
    {
        self.items.len()
    }

    /// Selects the entry above; the arithmetic of the selection underflows at
    /// the top entry, so the selection must not be the top one.
    fn up(&mut self)
        requires
            old(self).wf(),
            old(self).current() > 0,
        ensures
            final(self).wf(),
            final(self).labels() == old(self).labels(),
            final(self).values() == old(self).values(),
            final(self).current() == old(self).current() - 1,
    {
        self.current_index = self.current_index - 1;
    }

    /// Selects the entry below, staying on the last one; the menu must not be empty.
    fn down(&mut self)
        requires
            old(self).wf(),
            old(self).values().len() > 0,
        ensures
            final(self).wf(),
            final(self).labels() == old(self).labels(),
            final(self).values() == old(self).values(),
            final(self).current() == if old(self).current() + 1 < old(self).values().len() {
                old(self).current() + 1
            } else {
                old(self).values().len() - 1
            },
    {
        assert(self.items@.len() == self.values().len());
        let len = self.items.len();
        let last = len - 1;
        let next = self.current_index + 1;
        self.current_index = if next < last { next } else { last };
    }

    /// A clone of the selected entry's value.
    fn current_item(&self) -> (v: T)
        requires
            self.wf(),
            self.values().len() > 0,
        ensures
            cloned(self.values()[self.current()], v),
    {
        self.items[self.current_index].1.clone()
    }

    /// Reacts to a key: up and down move the selection, return yields the
    /// selected value; nothing else changes the menu. Up on the top entry,
    /// and down or return on an empty menu, are not accepted.
    pub fn update(&mut self, input: Option<KeyInput>) -> (r: Option<T>)
        requires
            old(self).wf(),
            input == Some(KeyInput::Up) ==> old(self).current() > 0,
            input == Some(KeyInput::Down) ==> old(self).values().len() > 0,
            input == Some(KeyInput::Return) ==> old(self).values().len() > 0,
        ensures
            final(self).wf(),
            menu_step(*old(self), *final(self), input, r),
    {
        match input {
            Some(KeyInput::Up) => self.up(),
            Some(KeyInput::Down) => self.down(),
            Some(KeyInput::Return) => return Some(self.current_item()),
            _ => {},
        }
        None
    }

    /// The squares the menu draws, entry by entry: for the selected entry a
    /// bold '>' in column 0 of its row, then each entry's label from column 2
    /// of its row, bold when selected.
    pub fn render(&self) -> (r: Vec<(Coord, char, bool)>)
        requires
            self.wf(),
            self.labels().len() <= i32::MAX,
            forall|i: int| 0 <= i < self.labels().len() ==> #[trigger] self.labels()[i].len() + 2 <= i32::MAX,
        ensures
            drawn_all(r@) == menu_cells(
                self.labels(),
                self.current(),
                self.labels().len(),
            ),
    {
        let mut r: Vec<(Coord, char, bool)> = Vec::new();
        let mut i: usize = 0;
        while i < self.items.len()
            invariant
                self.wf(),
                self.labels().len() <= i32::MAX,
                forall|i: int| 0 <= i < self.labels().len() ==> #[trigger] self.labels()[i].len() + 2 <= i32::MAX,
                i <= self.items@.len(),
                drawn_all(r@) == menu_cells(self.labels(), self.current(), i as nat),
            decreases self.items@.len() - i,
        {
            let ghost before = drawn_all(r@);
            let selected = i == self.current_index;
            let row = i as i32;
            let label = self.items[i].0.as_str();
            assert(label@ == self.labels()[i as int]);
            if selected {
                r.push((Coord { x: 0, y: row }, '>', true));
            }
            let ghost start = drawn_all(r@);
            assert(r@.len() == start.len());
            assert(start == before + (if selected { seq![((0int, i as int), '>', true)] } else { Seq::empty() }));
            let n = label.unicode_len();
            let mut j: usize = 0;
            while j < n
                invariant
                    self.wf(),
                    n == label@.len(),
                    label@.len() + 2 <= i32::MAX,
                    row == i,
                    j <= n,
                    r@.len() == start.len() + j,
                    drawn_all(r@) == start + Seq::new(
                        j as nat,
                        |k: int| ((k + 2, i as int), label@[k], selected),
                    ),
                decreases n - j,
            {
                let ch = label.get_char(j);
                let ghost mid = r@;
                let entry = (Coord { x: j as i32 + 2, y: row }, ch, selected);
                r.push(entry);
                assert(r@ == mid.push(entry));
                assert(drawn(r@[j as int + start.len()]) == (((j + 2) as int, i as int), label@[j as int], selected)) by {
                    assert(r@[mid.len() as int] == entry);
                }
                assert forall|k: int| 0 <= k < r@.len() implies #[trigger] drawn_all(r@)[k] == (start + Seq::new(
                    (j + 1) as nat,
                    |k: int| ((k + 2, i as int), label@[k], selected),
                ))[k] by {
                    if k < mid.len() {
                        assert(r@[k] == mid[k]);
                        assert(drawn_all(mid)[k] == (start + Seq::new(j as nat, |k: int| ((k + 2, i as int), label@[k], selected)))[k]);
                    }
                }
                assert(drawn_all(r@) =~= start + Seq::new(
                    (j + 1) as nat,
                    |k: int| ((k + 2, i as int), label@[k], selected),
                ));
                j = j + 1;
            }
            assert(drawn_all(r@) =~= menu_cells(
                self.labels(),
                self.current(),
                (i + 1) as nat,
            ));
            i = i + 1;
        }
        r
    }
}

} // verus!
