use crate::error::AllocError;
use vstd::arithmetic::power2::is_pow2;
use vstd::prelude::*;

verus! {

/// The bytes of a freed block that a free-list link occupies. No size class
/// may be smaller.
pub const NODE_SIZE: usize = 8;

/// What a request says: how many bytes, and the boundary they start on.
pub struct RequestView {
    pub size: int,
    pub align: int,
}

impl RequestView {
    /// The alignment is a power of two, and the size rounded up to it stays
    /// within `isize::MAX`.
    pub open spec fn valid(self) -> bool {
        &&& 0 <= self.size
        &&& is_pow2(self.align)
        &&& self.size + self.align - 1 <= isize::MAX
    }

    /// The block size that serves both the size and the alignment.
    pub open spec fn need(self) -> int {
        if self.size >= self.align {
            self.size
        } else {
            self.align
        }
    }
}

/// An allocation request. The same request is given when the block is
/// handed back.
#[derive(Clone, Copy, Debug)]
pub struct Request {
    size: usize,
    align: usize,
}

impl View for Request {
    type V = RequestView;

    closed spec fn view(&self) -> RequestView {
        RequestView { size: self.size as int, align: self.align as int }
    }
}

/// Whether `n` is a power of two.
pub fn is_power_of_two(n: usize) -> (yes: bool)
    ensures
        yes == is_pow2(n as int),
{
    if n == 0 {
        proof {
            reveal_with_fuel(is_pow2, 1);
        }
        return false;
    }
    let mut m: usize = n;
    while m % 2 == 0
        invariant
            m > 0,
            is_pow2(m as int) == is_pow2(n as int),
        decreases m,
    {
        proof {
            reveal_with_fuel(is_pow2, 2);
        }
        m = m / 2;
    }
    proof {
        reveal_with_fuel(is_pow2, 2);
    }
    m == 1
}

impl Request {
    #[verifier::type_invariant]
    spec fn inv(&self) -> bool {
        self@.valid()
    }

    /// A request for `size` bytes on an `align` boundary, if `align` is a
    /// power of two and `size` rounded up to it does not exceed `isize::MAX`.
    pub fn new(size: usize, align: usize) -> (made: Option<Request>)
        ensures
            made is Some <==> (RequestView { size: size as int, align: align as int }).valid(),
            made matches Some(request) ==> request@ == (RequestView {
                size: size as int,
                align: align as int,
            }),
    {
        if !is_power_of_two(align) {
            return None;
        }
        proof {
            reveal_with_fuel(is_pow2, 1);
        }
        let limit: usize = isize::MAX as usize;
        if align - 1 > limit || size > limit - (align - 1) {
            return None;
        }
        Some(Request { size, align })
    }

    /// The number of bytes asked for.
    pub fn size(&self) -> (size: usize)
        ensures
            size == self@.size,
            self@.valid(),
    {
        proof {
            use_type_invariant(self);
        }
        self.size
    }

    /// The boundary asked for.
    pub fn align(&self) -> (align: usize)
        ensures
            align == self@.align,
            self@.valid(),
    {
        proof {
            use_type_invariant(self);
        }
        self.align
    }
}

/// Every class can host a link and is a power of two, the classes grow
/// strictly, and their indices are machine integers.
pub open spec fn valid_classes(sizes: Seq<usize>) -> bool {
    &&& sizes.len() <= usize::MAX
    &&& forall|i: int|
        0 <= i < sizes.len() ==> sizes[i] >= NODE_SIZE && is_pow2(#[trigger] sizes[i] as int)
    &&& forall|i: int, j: int| 0 <= i < j < sizes.len() ==> sizes[i] < sizes[j]
}

/// The first index from `from` on whose class is at least `need`.
pub open spec fn class_index_from(sizes: Seq<usize>, need: int, from: int) -> Option<usize>
    decreases sizes.len() - from,
{
    if from < 0 || from >= sizes.len() {
        None
    } else if sizes[from] >= need {
        Some(from as usize)
    } else {
        class_index_from(sizes, need, from + 1)
    }
}

/// The index of the smallest class that is at least `need`, if there is one.
pub open spec fn class_index(sizes: Seq<usize>, need: int) -> Option<usize> {
    class_index_from(sizes, need, 0)
}

/// The sizes of the classes that serve small requests when no other table is
/// given.
pub open spec fn standard_sizes() -> Seq<usize> {
    seq![8usize, 16usize, 32usize, 64usize, 128usize, 256usize, 512usize, 1024usize, 2048usize]
}

/// An ascending table of block sizes by which requests are classified.
pub struct SizeClasses {
    sizes: Vec<usize>,
}

impl View for SizeClasses {
    type V = Seq<usize>;

    closed spec fn view(&self) -> Seq<usize> {
        self.sizes@
    }
}

impl SizeClasses {
    #[verifier::type_invariant]
    spec fn inv(&self) -> bool {
        valid_classes(self.sizes@)
    }

    /// The table with the given sizes, unless one of them cannot host a
    /// link, is no power of two, or does not exceed the one before it.
    pub fn new(sizes: Vec<usize>) -> (made: Result<SizeClasses, AllocError>)
        ensures
            made is Ok <==> valid_classes(sizes@),
            made matches Ok(table) ==> table@ == sizes@,
            made matches Err(e) ==> e == AllocError::MisconfiguredClass,
    {
        let mut i: usize = 0;
        while i < sizes.len()
            invariant
                i <= sizes.len(),
                forall|k: int|
                    0 <= k < i ==> sizes[k] >= NODE_SIZE && is_pow2(#[trigger] sizes[k] as int),
                forall|k: int| 0 < k < i ==> sizes[k - 1] < #[trigger] sizes[k],
            decreases sizes.len() - i,
        {
            let size = sizes[i];
            if size < NODE_SIZE || !is_power_of_two(size) {
                return Err(AllocError::MisconfiguredClass);
            }
            if i > 0 && sizes[i - 1] >= size {
                assert(!(sizes[i - 1] < sizes[i as int]));
                return Err(AllocError::MisconfiguredClass);
            }
            i += 1;
        }
        proof {
            lemma_adjacent_gives_ascending(sizes@);
        }
        Ok(SizeClasses { sizes })
    }

    /// The table 8, 16, 32, ..., 2048.
    pub fn standard() -> (table: SizeClasses)
        ensures
            table@ == standard_sizes(),
            valid_classes(table@),
    {
        let sizes: Vec<usize> = vec![8, 16, 32, 64, 128, 256, 512, 1024, 2048];
        proof {
            assert(sizes@ =~= standard_sizes());
            lemma_standard_sizes_valid();
        }
        SizeClasses { sizes }
    }

    /// The number of classes.
    pub fn len(&self) -> (n: usize)
        ensures
            n == self@.len(),
            valid_classes(self@),
    {
        proof {
            use_type_invariant(self);
        }
        self.sizes.len()
    }

    /// The block size of class `index`.
    pub fn size_at(&self, index: usize) -> (size: usize)
        requires
            index < self@.len(),
        ensures
            size == self@[index as int],
            size >= NODE_SIZE,
            is_pow2(size as int),
    {
        proof {
            use_type_invariant(self);
        }
        self.sizes[index]
    }

    /// The smallest class that serves `request`, or none if the request
    /// exceeds every class.
    pub fn class_index(&self, request: &Request) -> (index: Option<usize>)
        ensures
            index == class_index(self@, request@.need()),
            index matches Some(i) ==> i < self@.len(),
    {
        let size = request.size();
        let align = request.align();
        let need = if size >= align {
            size
        } else {
            align
        };
        let mut i: usize = 0;
        while i < self.sizes.len()
            invariant
                i <= self.sizes.len(),
                need as int == request@.need(),
                class_index(self@, need as int) == class_index_from(self@, need as int, i as int),
            decreases self.sizes.len() - i,
        {
            if self.sizes[i] >= need {
                return Some(i);
            }
            i += 1;
        }
        None
    }
}

/// A table whose neighbours grow strictly grows strictly throughout.
pub proof fn lemma_adjacent_gives_ascending(sizes: Seq<usize>)
    requires
        forall|k: int| 0 < k < sizes.len() ==> sizes[k - 1] < #[trigger] sizes[k],
    ensures
        forall|i: int, j: int| 0 <= i < j < sizes.len() ==> sizes[i] < sizes[j],
{
    assert forall|i: int, j: int| 0 <= i < j < sizes.len() implies sizes[i] < sizes[j] by {
        lemma_ascending_between(sizes, i, j);
    }
}

proof fn lemma_ascending_between(sizes: Seq<usize>, i: int, j: int)
    requires
        forall|k: int| 0 < k < sizes.len() ==> sizes[k - 1] < #[trigger] sizes[k],
        0 <= i < j < sizes.len(),
    ensures
        sizes[i] < sizes[j],
    decreases j - i,
{
    if i + 1 < j {
        lemma_ascending_between(sizes, i, j - 1);
    }
    assert(sizes[j - 1] < sizes[j]);
}

/// The standard table is a valid table.
pub proof fn lemma_standard_sizes_valid()
    ensures
        valid_classes(standard_sizes()),
{
    reveal_with_fuel(is_pow2, 13);
    let sizes = standard_sizes();
    assert(is_pow2(8) && is_pow2(16) && is_pow2(32) && is_pow2(64) && is_pow2(128));
    assert(is_pow2(256) && is_pow2(512) && is_pow2(1024) && is_pow2(2048));
    assert forall|i: int| 0 <= i < sizes.len() implies sizes[i] >= NODE_SIZE && is_pow2(
        #[trigger] sizes[i] as int,
    ) by {
        if i == 0 {
        } else if i == 1 {
        } else if i == 2 {
        } else if i == 3 {
        } else if i == 4 {
        } else if i == 5 {
        } else if i == 6 {
        } else if i == 7 {
        } else {
        }
    }
}

/// What a scan of the table from `from` on answers: an index at or behind
/// `from` whose class holds `need` while no class between does, or nothing
/// where no class from `from` on holds `need`.
pub proof fn lemma_class_index_from_is_first(sizes: Seq<usize>, need: int, from: int)
    requires
        0 <= from,
        sizes.len() <= usize::MAX,
    ensures
        match class_index_from(sizes, need, from) {
            Some(i) => {
                &&& from <= i < sizes.len()
                &&& sizes[i as int] >= need
                &&& forall|j: int| from <= j < i ==> sizes[j] < need
            },
            None => forall|j: int| from <= j < sizes.len() ==> sizes[j] < need,
        },
    decreases sizes.len() - from,
{
    if from < sizes.len() && sizes[from] < need {
        lemma_class_index_from_is_first(sizes, need, from + 1);
    }
}

/// The class of a request is the smallest class that holds it: it holds the
/// request, and every class that holds the request has a later index or this
/// one. Where no class is found, none holds the request.
pub proof fn lemma_class_index_is_smallest(sizes: Seq<usize>, need: int)
    requires
        valid_classes(sizes),
    ensures
        match class_index(sizes, need) {
            Some(i) => {
                &&& i < sizes.len()
                &&& sizes[i as int] >= need
                &&& forall|j: int| 0 <= j < sizes.len() && sizes[j] >= need ==> i <= j
                &&& forall|j: int| 0 <= j < sizes.len() && sizes[j] >= need ==> sizes[i as int]
                    <= sizes[j]
            },
            None => forall|j: int| 0 <= j < sizes.len() ==> sizes[j] < need,
        },
{
    lemma_class_index_from_is_first(sizes, need, 0);
}

/// A request that exceeds every class has no class.
pub proof fn lemma_oversized_has_no_class(sizes: Seq<usize>, need: int)
    requires
        forall|j: int| 0 <= j < sizes.len() ==> sizes[j] < need,
    ensures
        class_index(sizes, need) is None,
{
    lemma_oversized_has_no_class_from(sizes, need, 0);
}

proof fn lemma_oversized_has_no_class_from(sizes: Seq<usize>, need: int, from: int)
    requires
        0 <= from,
        forall|j: int| 0 <= j < sizes.len() ==> sizes[j] < need,
    ensures
        class_index_from(sizes, need, from) is None,
    decreases sizes.len() - from,
{
    if from < sizes.len() {
        lemma_oversized_has_no_class_from(sizes, need, from + 1);
    }
}

/// A larger request never gets an earlier class than a smaller one, and
/// where the smaller one has no class the larger one has none.
pub proof fn lemma_class_index_is_monotonic(sizes: Seq<usize>, small: int, large: int)
    requires
        valid_classes(sizes),
        small <= large,
    ensures
        match (class_index(sizes, small), class_index(sizes, large)) {
            (Some(i), Some(j)) => i <= j,
            (None, Some(_)) => false,
            _ => true,
        },
{
    lemma_class_index_from_is_first(sizes, small, 0);
    lemma_class_index_from_is_first(sizes, large, 0);
}

} // verus!
