//! Maps keyed by the values of an [`Enum`].
//!
//! An [`EnumMap<E, T>`] stores exactly one `T` per value of `E`, in index
//! order, so that lookups by key are total and constant-time.
use vstd::prelude::*;
use core::marker::PhantomData;
use crate::enums::Enum;

verus! {

/// A map holding one value per value of the enum `E`.
///
/// Its view is the sequence of values in the order of the keys' indices.
pub struct EnumMap<E, T> {
    data: Vec<T>,
    __enum: PhantomData<E>,
}

/// An enum map stored in a fixed-size array.
pub type EnumMapArray<E, T> = EnumMap<E, T>;

/// An enum map stored on the heap.
pub type EnumMapBox<E, T> = EnumMap<E, T>;

impl<E, T> View for EnumMap<E, T> {
    type V = Seq<T>;

    closed spec fn view(&self) -> Seq<T> {
        self.data@
    }
}

impl<E: Enum, T> EnumMap<E, T> {
    /// Well-formedness: one value per key, and the key count fits a `usize`.
    pub open spec fn wf(&self) -> bool {
        &&& E::spec_fits()
        &&& self@.len() == E::spec_count()
    }

    /// The value stored for a key.
    pub open spec fn spec_get(&self, key: E) -> T {
        self@[key.spec_index() as int]
    }
}

impl<E, T> EnumMap<E, T> {
    /// Consumes the map and returns the underlying values, in key order.
    pub fn into_inner(self) -> (data: Vec<T>)
        ensures
            data@ == self@,
    {
        self.data
    }

    /// Number of values actually stored.
    pub fn runtime_len(&self) -> (n: usize)
        ensures
            n == self@.len(),
    {
        self.data.len()
    }

    /// The value at a raw position, if the position is in range.
    pub fn dyn_get(&self, index: usize) -> (r: Option<&T>)
        ensures
            index < self@.len() ==> r == Some(&self@[index as int]),
            index >= self@.len() ==> r.is_none(),
    {
        if index < self.data.len() {
            Some(&self.data[index])
        } else {
            None
        }
    }

    /// All values, in key order.
    pub fn values(&self) -> (r: &[T])
        ensures
            r@ == self@,
    {
        self.data.as_slice()
    }

    /// All values as a slice, in key order.
    pub fn as_slice(&self) -> (r: &[T])
        ensures
            r@ == self@,
    {
        self.data.as_slice()
    }

    /// All values as a mutable slice, in key order.
    pub fn values_mut(&mut self) -> (r: &mut [T])
        ensures
            r@ == old(self)@,
            final(self)@ == final(r)@,
    {
        self.data.as_mut_slice()
    }

    /// All values as a mutable slice, in key order.
    pub fn as_slice_mut(&mut self) -> (r: &mut [T])
        ensures
            r@ == old(self)@,
            final(self)@ == final(r)@,
    {
        self.data.as_mut_slice()
    }

    /// A mutable view of this map.
    pub fn to_mut(&mut self) -> (r: EnumMapMut<'_, E, T>)
        ensures
            r@ == old(self)@,
            final(self)@ == final(r.data)@,
    {
        EnumMapMut::from_slice_mut(self.data.as_mut_slice())
    }

    /// A mutable view of this map.
    pub fn as_mut(&mut self) -> (r: EnumMapMut<'_, E, T>)
        ensures
            r@ == old(self)@,
            final(self)@ == final(r.data)@,
    {
        self.to_mut()
    }

    /// A borrowed view of this map.
    pub fn to_ref(&self) -> (r: EnumMapRef<'_, E, T>)
        ensures
            r@ == self@,
    {
        EnumMapRef { data: self.data.as_slice(), __enum: PhantomData }
    }

    /// A borrowed view of this map.
    pub fn as_ref(&self) -> (r: EnumMapRef<'_, E, T>)
        ensures
            r@ == self@,
    {
        self.to_ref()
    }
}

impl<E: Enum, T> EnumMap<E, T> {
    /// Number of keys, which is the number of values held.
    pub fn len(&self) -> (n: usize)
        requires
            E::spec_fits(),
        ensures
            n == E::spec_count(),
    {
        E::count()
    }

    /// Whether the key type has no values.
    pub fn is_empty(&self) -> (b: bool)
        requires
            E::spec_fits(),
        ensures
            b == (E::spec_count() == 0),
    {
        E::count() == 0
    }

    /// The value stored for `key`.
    pub fn get(&self, key: E) -> (r: &T)
        requires
            self.wf(),
        ensures
            *r == self.spec_get(key),
    {
        let i = key.to_usize();
        &self.data[i]
    }

    /// The value stored for `key`, mutably; what is written through it is
    /// what the map then holds for `key`.
    pub fn get_mut(&mut self, key: E) -> (r: &mut T)
        requires
            old(self).wf(),
        ensures
            *r == old(self).spec_get(key),
            final(self)@ == old(self)@.update(key.spec_index() as int, *final(r)),
    {
        let i = key.to_usize();
        &mut self.data[i]
    }

    /// Replaces the value stored for `key`.
    pub fn set(&mut self, key: E, value: T)
        requires
            old(self).wf(),
        ensures
            final(self).wf(),
            final(self)@ == old(self)@.update(key.spec_index() as int, value),
    {
        let i = key.to_usize();
        self.data.set(i, value);
    }

    /// Builds a map whose value for each key is `fill(key)`.
    pub fn new<F: Fn(E) -> T>(fill: F) -> (map: Self)
        requires
            E::spec_fits(),
            forall|e: E| call_requires(fill, (e,)),
        ensures
            map.wf(),
            forall|i: int|
                0 <= i < E::spec_count() ==> call_ensures(
                    fill,
                    (E::spec_variant(i as nat),),
                    #[trigger] map@[i],
                ),
    {
        let n = E::count();
        let mut data: Vec<T> = Vec::with_capacity(n);
        let mut i: usize = 0;
        while i < n
            invariant
                E::spec_fits(),
                n == E::spec_count(),
                i <= n,
                data@.len() == i,
                forall|e: E| call_requires(fill, (e,)),
                forall|j: int|
                    0 <= j < i ==> call_ensures(fill, (E::spec_variant(j as nat),), #[trigger] data@[j]),
            decreases n - i,
        {
            let key = E::from_usize(i);
            let v = fill(key);
            data.push(v);
            i = i + 1;
        }
        EnumMap { data, __enum: PhantomData }
    }

    /// Builds a map from one value per key, given in key order.
    ///
    /// There must be exactly one value per key.
    pub fn from_array(array: Vec<T>) -> (map: Self)
        requires
            E::spec_fits(),
            array@.len() == E::spec_count(),
        ensures
            map.wf(),
            map@ == array@,
    {
        EnumMap { data: array, __enum: PhantomData }
    }

    /// Replaces all values, given one per key in key order.
    ///
    /// There must be exactly one value per key.
    pub fn set_all(&mut self, values: Vec<T>)
        requires
            old(self).wf(),
            values@.len() == E::spec_count(),
        ensures
            final(self).wf(),
            final(self)@ == values@,
    {
        self.data = values;
    }

    /// Transforms every value with `func(key, value)`, keeping the keys.
    pub fn map<U, F: Fn(E, T) -> U>(self, func: F) -> (map: EnumMap<E, U>)
        requires
            self.wf(),
            forall|e: E, v: T| call_requires(func, (e, v)),
        ensures
            map.wf(),
            forall|i: int|
                0 <= i < E::spec_count() ==> call_ensures(
                    func,
                    (E::spec_variant(i as nat), self@[i]),
                    #[trigger] map@[i],
                ),
    {
        let n = E::count();
        let ghost old_data = self@;
        let mut source = self.data;
        // The values are first moved into reverse order, so that popping
        // them hands them out in key order, each moved exactly once.
        let mut pending: Vec<T> = Vec::with_capacity(n);
        let mut k: usize = n;
        while k > 0
            invariant
                k <= n,
                source@ == old_data.take(k as int),
                old_data.len() == n,
                pending@.len() == n - k,
                forall|j: int| 0 <= j < n - k ==> #[trigger] pending@[j] == old_data[n - 1 - j],
            decreases k,
        {
            let v = source.pop().unwrap();
            k = k - 1;
            pending.push(v);
            proof {
                assert(source@ =~= old_data.take(k as int));
            }
        }
        let mut out: Vec<U> = Vec::with_capacity(n);
        let mut i: usize = 0;
        while i < n
            invariant
                E::spec_fits(),
                n == E::spec_count(),
                old_data.len() == n,
                i <= n,
                out@.len() == i,
                pending@.len() == n - i,
                forall|j: int| 0 <= j < n - i ==> #[trigger] pending@[j] == old_data[n - 1 - j],
                forall|e: E, v: T| call_requires(func, (e, v)),
                forall|j: int|
                    0 <= j < i ==> call_ensures(
                        func,
                        (E::spec_variant(j as nat), old_data[j]),
                        #[trigger] out@[j],
                    ),
            decreases n - i,
        {
            let ghost before = pending@;
            let v = pending.pop().unwrap();
            proof {
                assert(v == before[n - i - 1]);
                assert(v == old_data[i as int]);
            }
            let key = E::from_usize(i);
            let u = func(key, v);
            out.push(u);
            i = i + 1;
        }
        EnumMap { data: out, __enum: PhantomData }
    }

    /// Lists every key with a mutable reference to its value, in key order;
    /// what is written through a reference is what the map then holds for
    /// its key.
    pub fn iter_mut(&mut self) -> (items: Vec<(E, &mut T)>)
        requires
            old(self).wf(),
        ensures
            items@.len() == E::spec_count(),
            final(self)@.len() == E::spec_count(),
            forall|i: int|
                0 <= i < E::spec_count() ==> (#[trigger] items@[i]).0 == E::spec_variant(i as nat)
                    && *items@[i].1 == old(self)@[i] && final(self)@[i] == *final(items@[i].1),
    {
        let n = E::count();
        let mut items: Vec<(E, &mut T)> = Vec::with_capacity(n);
        let ghost fin = final(self)@;
        let mut rest: &mut [T] = self.data.as_mut_slice();
        let mut i: usize = 0;
        while i < n
            invariant
                E::spec_fits(),
                n == E::spec_count(),
                i <= n,
                items@.len() == i,
                rest@ == old(self)@.subrange(i as int, n as int),
                old(self)@.len() == n,
                forall|j: int|
                    0 <= j < i ==> (#[trigger] items@[j]).0 == E::spec_variant(j as nat) && *items@[j].1 == old(self)@[j],
                fin == Seq::new(i as nat, |j: int| *final(items@[j].1)) + final(rest)@,
            decreases n - i,
        {
            let (head, tail) = rest.split_at_mut(1);
            let key = E::from_usize(i);
            let first = head.first_mut().unwrap();
            items.push((key, first));
            rest = tail;
            i = i + 1;
        }
        items
    }

    /// Lists every key with a reference to its value, in key order.
    pub fn iter(&self) -> (items: Vec<(E, &T)>)
        requires
            self.wf(),
        ensures
            items@.len() == E::spec_count(),
            forall|i: int|
                0 <= i < E::spec_count() ==> (#[trigger] items@[i]).0 == E::spec_variant(i as nat)
                    && *items@[i].1 == self@[i],
    {
        let n = E::count();
        let mut items: Vec<(E, &T)> = Vec::with_capacity(n);
        let mut i: usize = 0;
        while i < n
            invariant
                E::spec_fits(),
                n == E::spec_count(),
                self@.len() == n,
                i <= n,
                items@.len() == i,
                forall|j: int|
                    0 <= j < i ==> (#[trigger] items@[j]).0 == E::spec_variant(j as nat)
                        && *items@[j].1 == self@[j],
            decreases n - i,
        {
            let key = E::from_usize(i);
            items.push((key, &self.data[i]));
            i = i + 1;
        }
        items
    }
}

impl<E: Enum, T, X> EnumMap<E, Result<T, X>> {
    /// Turns a map of results into a result of a map: the first error in key
    /// order if there is one, otherwise the map of the `Ok` values.
    pub fn transpose(self) -> (r: Result<EnumMap<E, T>, X>)
        requires
            self.wf(),
        ensures
            match r {
                Ok(m) => m.wf() && (forall|i: int|
                    0 <= i < self@.len() ==> #[trigger] self@[i] == Ok::<T, X>(m@[i])),
                Err(e) => exists|i: int|
                    0 <= i < self@.len() && #[trigger] self@[i] == Err::<T, X>(e)
                        && forall|j: int| 0 <= j < i ==> (#[trigger] self@[j]) is Ok,
            },
    {
        let n = E::count();
        let ghost old_data = self@;
        let mut source = self.data;
        let mut reversed: Vec<Result<T, X>> = Vec::with_capacity(n);
        while source.len() > 0
            invariant
                source@.len() + reversed@.len() == n,
                old_data.len() == n,
                old_data == self@,
                source@ == old_data.take(source@.len() as int),
                forall|j: int|
                    0 <= j < reversed@.len() ==> #[trigger] reversed@[j] == old_data[n - 1 - j],
            decreases source@.len(),
        {
            let v = source.pop().unwrap();
            reversed.push(v);
            proof {
                assert(source@ =~= old_data.take(source@.len() as int));
            }
        }
        let mut out: Vec<T> = Vec::with_capacity(n);
        while reversed.len() > 0
            invariant
                reversed@.len() + out@.len() == n,
                old_data.len() == n,
                old_data == self@,
                forall|j: int|
                    0 <= j < reversed@.len() ==> #[trigger] reversed@[j] == old_data[n - 1 - j],
                forall|j: int| 0 <= j < out@.len() ==> old_data[j] == Ok::<T, X>(#[trigger] out@[j]),
            decreases reversed@.len(),
        {
            let ghost before = reversed@;
            let v = reversed.pop().unwrap();
            proof {
                assert(v == before[before.len() - 1]);
            }
            match v {
                Ok(x) => {
                    out.push(x);
                },
                Err(e) => {
                    proof {
                        let i = out@.len() as int;
                        assert(old_data[i] == Err::<T, X>(e));
                        assert forall|j: int| 0 <= j < i implies (#[trigger] self@[j]) is Ok by {
                            assert(old_data[j] == Ok::<T, X>(out@[j]));
                        }
                        assert(0 <= i < self@.len() && self@[i] == Err::<T, X>(e));
                    }
                    return Err(e);
                },
            }
        }
        Ok(EnumMap { data: out, __enum: PhantomData })
    }
}

/// A borrowed, read-only enum map over a slice of values.
pub struct EnumMapRef<'a, E, T> {
    data: &'a [T],
    __enum: PhantomData<E>,
}

impl<'a, E, T> View for EnumMapRef<'a, E, T> {
    type V = Seq<T>;

    closed spec fn view(&self) -> Seq<T> {
        self.data@
    }
}

impl<'a, E, T> EnumMapRef<'a, E, T> {
    /// Views a slice as an enum map; the slice is expected to hold one value
    /// per key.
    pub fn from_slice(slice: &'a [T]) -> (r: Self)
        ensures
            r@ == slice@,
    {
        EnumMapRef { data: slice, __enum: PhantomData }
    }

    /// The values, in key order.
    pub fn as_slice(&self) -> (r: &'a [T])
        ensures
            r@ == self@,
    {
        self.data
    }
}

impl<'a, E: Enum, T> EnumMapRef<'a, E, T> {
    /// The value stored for `key`, which must be within the slice.
    pub fn get(&self, key: E) -> (r: &'a T)
        requires
            E::spec_fits(),
            key.spec_index() < self@.len(),
        ensures
            *r == self@[key.spec_index() as int],
    {
        let i = key.to_usize();
        &self.data[i]
    }
}

/// A borrowed, mutable enum map over a slice of values.
pub struct EnumMapMut<'a, E, T> {
    /// The viewed values, in key order.
    pub data: &'a mut [T],
    /// The key type.
    pub __enum: PhantomData<E>,
}

impl<'a, E, T> View for EnumMapMut<'a, E, T> {
    type V = Seq<T>;

    open spec fn view(&self) -> Seq<T> {
        self.data@
    }
}

impl<'a, E, T> EnumMapMut<'a, E, T> {
    /// Views a mutable slice as an enum map; the slice is expected to hold
    /// one value per key.
    pub fn from_slice_mut(slice: &'a mut [T]) -> (r: Self)
        ensures
            r@ == old(slice)@,
            final(slice)@ == final(r.data)@,
    {
        EnumMapMut { data: slice, __enum: PhantomData }
    }
}

impl<'a, E: Enum, T> EnumMapMut<'a, E, T> {
    /// Replaces the value stored for `key`, which must be within the slice.
    pub fn set(&mut self, key: E, value: T)
        requires
            E::spec_fits(),
            key.spec_index() < old(self)@.len(),
        ensures
            final(self)@ == old(self)@.update(key.spec_index() as int, value),
            final(final(self).data)@ == final(old(self).data)@,
    {
        let i = key.to_usize();
        self.data[i] = value;
    }
}

/// Reading a key back after writing it gives the written value, and every
/// other key keeps its value.
pub proof fn lemma_set_then_get<E: Enum, T>(
    before: EnumMap<E, T>,
    after: EnumMap<E, T>,
    key: E,
    other: E,
    value: T,
)
    requires
        before.wf(),
        after@ == before@.update(key.spec_index() as int, value),
        key.spec_index() < E::spec_count(),
        E::spec_variant(key.spec_index()) == key,
        other.spec_index() < E::spec_count(),
        E::spec_variant(other.spec_index()) == other,
    ensures
        after.spec_get(key) == value,
        other != key ==> after.spec_get(other) == before.spec_get(other),
{
}

} // verus!
