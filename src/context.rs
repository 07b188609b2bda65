use vstd::prelude::*;

verus! {

/// Largest number of cells a bank can hold: the whole 16-bit address space.
pub const MAX_BANK_SIZE: usize = 65536;

/// Why an access to the register context was refused.
#[derive(PartialEq, Eq, Structural, Debug, Clone, Copy)]
pub enum ContextError {
    /// An address of the request lies at or beyond the bank's size.
    OutOfRange,
    /// A byte payload or snapshot does not have the expected length or content.
    Format,
}

/// The four Modbus data banks. Their sizes are chosen by `new` and never change.
pub struct ModbusContext {
    pub coils: Vec<bool>,
    pub discretes: Vec<bool>,
    pub holdings: Vec<u16>,
    pub inputs: Vec<u16>,
}

/// The mathematical contents of a `ModbusContext`.
pub struct ContextView {
    pub coils: Seq<bool>,
    pub discretes: Seq<bool>,
    pub holdings: Seq<u16>,
    pub inputs: Seq<u16>,
}

impl View for ModbusContext {
    type V = ContextView;

    open spec fn view(&self) -> ContextView {
        ContextView {
            coils: self.coils@,
            discretes: self.discretes@,
            holdings: self.holdings@,
            inputs: self.inputs@,
        }
    }
}

impl ContextView {
    /// Every bank fits the 16-bit address space.
    pub open spec fn wf(self) -> bool {
        &&& self.coils.len() <= MAX_BANK_SIZE
        &&& self.discretes.len() <= MAX_BANK_SIZE
        &&& self.holdings.len() <= MAX_BANK_SIZE
        &&& self.inputs.len() <= MAX_BANK_SIZE
    }

    /// The two contexts have banks of the same sizes.
    pub open spec fn same_sizes(self, other: ContextView) -> bool {
        &&& self.coils.len() == other.coils.len()
        &&& self.discretes.len() == other.discretes.len()
        &&& self.holdings.len() == other.holdings.len()
        &&& self.inputs.len() == other.inputs.len()
    }
}

/// A sequence of `n` copies of `v`.
fn filled<T: Copy>(v: T, n: usize) -> (r: Vec<T>)
    ensures
        r@ == Seq::new(n as nat, |i: int| v),
{
    let mut r: Vec<T> = Vec::new();
    let mut i: usize = 0;
    while i < n
        invariant
            i <= n,
            r@ == Seq::new(i as nat, |k: int| v),
        decreases n - i,
    {
        r.push(v);
        i = i + 1;
        assert(r@ =~= Seq::new(i as nat, |k: int| v));
    }
    r
}

impl ModbusContext {
    /// A context whose banks hold the given numbers of cells, all false or zero.
    pub fn new(coils: usize, discretes: usize, holdings: usize, inputs: usize) -> (r: ModbusContext)
        requires
            coils <= MAX_BANK_SIZE,
            discretes <= MAX_BANK_SIZE,
            holdings <= MAX_BANK_SIZE,
            inputs <= MAX_BANK_SIZE,
        ensures
            r@.wf(),
            r@.coils == Seq::new(coils as nat, |i: int| false),
            r@.discretes == Seq::new(discretes as nat, |i: int| false),
            r@.holdings == Seq::new(holdings as nat, |i: int| 0u16),
            r@.inputs == Seq::new(inputs as nat, |i: int| 0u16),
    {
        ModbusContext {
            coils: filled(false, coils),
            discretes: filled(false, discretes),
            holdings: filled(0u16, holdings),
            inputs: filled(0u16, inputs),
        }
    }
}

/// The cell at `address`, or `OutOfRange` at or beyond the bank's size.
pub open spec fn cell<T>(bank: Seq<T>, address: int) -> Result<T, ContextError> {
    if 0 <= address < bank.len() {
        Ok(bank[address])
    } else {
        Err(ContextError::OutOfRange)
    }
}

/// The bank with the cell at `address` set to `value`, or `OutOfRange` at or beyond its size.
pub open spec fn with_cell<T>(bank: Seq<T>, address: int, value: T) -> Result<Seq<T>, ContextError> {
    if 0 <= address < bank.len() {
        Ok(bank.update(address, value))
    } else {
        Err(ContextError::OutOfRange)
    }
}

/// Reads the cell at `address`.
pub fn get<T: Copy>(address: u16, bank: &Vec<T>) -> (r: Result<T, ContextError>)
    ensures
        r == cell(bank@, address as int),
{
    if (address as usize) < bank.len() {
        Ok(bank[address as usize])
    } else {
        Err(ContextError::OutOfRange)
    }
}

/// Writes `value` into the cell at `address`; the bank is left unchanged on failure.
pub fn set<T: Copy>(address: u16, value: T, bank: &mut Vec<T>) -> (r: Result<(), ContextError>)
    ensures
        with_cell(old(bank)@, address as int, value) is Ok ==> r is Ok
            && final(bank)@ == with_cell(old(bank)@, address as int, value)->Ok_0,
        with_cell(old(bank)@, address as int, value) is Err ==> r == Err::<(), ContextError>(
            with_cell(old(bank)@, address as int, value)->Err_0,
        ) && final(bank)@ == old(bank)@,
{
    if (address as usize) < bank.len() {
        bank.set(address as usize, value);
        Ok(())
    } else {
        Err(ContextError::OutOfRange)
    }
}

/// Within a bank's size, reading a cell after writing it gives the written value; at or beyond
/// the size, both the write and the read fail with `OutOfRange`.
pub proof fn lemma_set_then_get<T>(bank: Seq<T>, address: u16, value: T)
    ensures
        address < bank.len() ==> with_cell(bank, address as int, value) is Ok && cell(
            with_cell(bank, address as int, value)->Ok_0,
            address as int,
        ) == Ok::<T, ContextError>(value),
        address >= bank.len() ==> with_cell(bank, address as int, value) == Err::<Seq<T>, ContextError>(
            ContextError::OutOfRange,
        ) && cell(bank, address as int) == Err::<T, ContextError>(ContextError::OutOfRange),
{
}

/// The cells `address .. address + count` of `bank`, when they all exist.
pub open spec fn range_ok(len: int, address: int, count: int) -> bool {
    address + count <= len
}

/// Reads `count` consecutive cells starting at `address`, in address order.
pub fn get_bulk<T: Copy>(address: u16, count: u16, bank: &Vec<T>) -> (r: Result<Vec<T>, ContextError>)
    ensures
        range_ok(bank@.len() as int, address as int, count as int) ==> r is Ok
            && r->Ok_0@ == bank@.subrange(address as int, address + count),
        !range_ok(bank@.len() as int, address as int, count as int) ==> r
            == Err::<Vec<T>, ContextError>(ContextError::OutOfRange),
{
    let end: usize = address as usize + count as usize;
    if end > bank.len() {
        return Err(ContextError::OutOfRange);
    }
    let mut r: Vec<T> = Vec::new();
    let mut i: usize = address as usize;
    while i < end
        invariant
            address as int <= i <= end <= bank@.len(),
            r@ == bank@.subrange(address as int, i as int),
        decreases end - i,
    {
        r.push(bank[i]);
        i = i + 1;
        assert(r@ =~= bank@.subrange(address as int, i as int));
    }
    Ok(r)
}

/// The bank after `values` are written from `address` on.
pub open spec fn written<T>(bank: Seq<T>, address: int, values: Seq<T>) -> Seq<T> {
    Seq::new(
        bank.len(),
        |i: int|
            if address <= i < address + values.len() {
                values[i - address]
            } else {
                bank[i]
            },
    )
}

/// Writes `values` from `address` on: the first value goes to `address`. Either every cell is
/// written or, when the range leaves the bank, none is.
pub fn set_bulk<T: Copy>(address: u16, values: &Vec<T>, bank: &mut Vec<T>) -> (r: Result<(), ContextError>)
    ensures
        range_ok(old(bank)@.len() as int, address as int, values@.len() as int) ==> r is Ok
            && final(bank)@ == written(old(bank)@, address as int, values@),
        !range_ok(old(bank)@.len() as int, address as int, values@.len() as int) ==> r
            == Err::<(), ContextError>(ContextError::OutOfRange) && final(bank)@ == old(bank)@,
{
    if values.len() > bank.len() || address as usize > bank.len() - values.len() {
        return Err(ContextError::OutOfRange);
    }
    let mut i: usize = 0;
    while i < values.len()
        invariant
            address + values@.len() <= bank@.len() <= usize::MAX,
            bank@.len() == old(bank)@.len(),
            i <= values@.len(),
            bank@ == written(old(bank)@, address as int, values@.subrange(0, i as int)),
        decreases values@.len() - i,
    {
        bank.set(address as usize + i, values[i]);
        i = i + 1;
        assert(bank@ =~= written(old(bank)@, address as int, values@.subrange(0, i as int)));
    }
    assert(values@.subrange(0, values@.len() as int) =~= values@);
    Ok(())
}

/// The 32-bit value held by two word cells: the first holds the high half.
pub open spec fn u32_of(high: u16, low: u16) -> u32 {
    (high as int * 65536 + low as int) as u32
}

/// Reads the 32-bit value at `address` and `address + 1`, high half first.
pub fn get_u32(address: u16, bank: &Vec<u16>) -> (r: Result<u32, ContextError>)
    ensures
        address as int + 1 < bank@.len() ==> r == Ok::<u32, ContextError>(
            u32_of(bank@[address as int], bank@[address + 1]),
        ),
        address as int + 1 >= bank@.len() ==> r == Err::<u32, ContextError>(ContextError::OutOfRange),
{
    if address as usize + 1 < bank.len() {
        let high: u32 = bank[address as usize] as u32;
        let low: u32 = bank[address as usize + 1] as u32;
        Ok(high * 65536 + low)
    } else {
        Err(ContextError::OutOfRange)
    }
}

/// Writes `value` to `address` (high half) and `address + 1` (low half), or nothing when
/// `address + 1` lies outside the bank.
pub fn set_u32(address: u16, value: u32, bank: &mut Vec<u16>) -> (r: Result<(), ContextError>)
    ensures
        address as int + 1 < old(bank)@.len() ==> r is Ok && final(bank)@ == old(bank)@.update(
            address as int,
            (value / 65536) as u16,
        ).update(address + 1, (value % 65536) as u16),
        address as int + 1 < old(bank)@.len() ==> u32_of(final(bank)@[address as int], final(bank)@[address + 1])
            == value,
        address as int + 1 >= old(bank)@.len() ==> r == Err::<(), ContextError>(ContextError::OutOfRange)
            && final(bank)@ == old(bank)@,
{
    if address as usize + 1 < bank.len() {
        bank.set(address as usize, (value / 65536) as u16);
        bank.set(address as usize + 1, (value % 65536) as u16);
        Ok(())
    } else {
        Err(ContextError::OutOfRange)
    }
}

/// Words as bytes, two per word, high byte first.
pub open spec fn words_bytes(s: Seq<u16>) -> Seq<u8> {
    Seq::new(
        2 * s.len(),
        |j: int|
            if j % 2 == 0 {
                (s[j / 2] / 256) as u8
            } else {
                (s[j / 2] % 256) as u8
            },
    )
}

/// Appends the bytes of `bank[from..to]`, two per word, high byte first, to `out`.
fn push_words_bytes(bank: &Vec<u16>, from: usize, to: usize, out: &mut Vec<u8>)
    requires
        from <= to <= bank@.len(),
        old(out)@.len() + 2 * (to - from) <= usize::MAX,
    ensures
        final(out)@ == old(out)@ + words_bytes(bank@.subrange(from as int, to as int)),
{
    let mut i: usize = from;
    while i < to
        invariant
            from <= i <= to <= bank@.len(),
            old(out)@.len() + 2 * (to - from) <= usize::MAX,
            out@ == old(out)@ + words_bytes(bank@.subrange(from as int, i as int)),
        decreases to - i,
    {
        let w: u16 = bank[i];
        out.push((w / 256) as u8);
        out.push((w % 256) as u8);
        i = i + 1;
        assert(out@ =~= old(out)@ + words_bytes(bank@.subrange(from as int, i as int)));
    }
}

/// Reads `count` words from `address` on, as bytes on the wire: two per word, high byte first.
pub fn get_words_as_bytes(address: u16, count: u16, bank: &Vec<u16>) -> (r: Result<Vec<u8>, ContextError>)
    ensures
        range_ok(bank@.len() as int, address as int, count as int) ==> r is Ok
            && r->Ok_0@ == words_bytes(bank@.subrange(address as int, address + count)),
        !range_ok(bank@.len() as int, address as int, count as int) ==> r
            == Err::<Vec<u8>, ContextError>(ContextError::OutOfRange),
{
    let end: usize = address as usize + count as usize;
    if end > bank.len() {
        return Err(ContextError::OutOfRange);
    }
    let mut r: Vec<u8> = Vec::new();
    push_words_bytes(bank, address as usize, end, &mut r);
    assert(r@ =~= words_bytes(bank@.subrange(address as int, address + count)));
    Ok(r)
}

/// Words read from bytes, two bytes per word, high byte first; a trailing odd byte is not part
/// of any word.
pub open spec fn bytes_words(b: Seq<u8>) -> Seq<u16> {
    Seq::new(b.len() / 2, |i: int| (b[2 * i] as int * 256 + b[2 * i + 1] as int) as u16)
}

/// Writes the words that `bytes` holds (two bytes each, high byte first) from `address` on.
/// Fails, writing nothing, when `bytes` has an odd length or the words leave the bank.
pub fn set_words_from_bytes(address: u16, bytes: &Vec<u8>, bank: &mut Vec<u16>) -> (r: Result<(), ContextError>)
    ensures
        bytes@.len() % 2 == 1 ==> r == Err::<(), ContextError>(ContextError::Format),
        bytes@.len() % 2 == 0 && !range_ok(old(bank)@.len() as int, address as int, (bytes@.len() / 2) as int)
            ==> r == Err::<(), ContextError>(ContextError::OutOfRange),
        r is Err ==> final(bank)@ == old(bank)@,
        r is Ok <==> bytes@.len() % 2 == 0 && range_ok(old(bank)@.len() as int, address as int, (bytes@.len() / 2) as int),
        r is Ok ==> final(bank)@ == written(old(bank)@, address as int, bytes_words(bytes@)),
{
    if bytes.len() % 2 == 1 {
        return Err(ContextError::Format);
    }
    let n: usize = bytes.len() / 2;
    let mut words: Vec<u16> = Vec::new();
    let mut i: usize = 0;
    while i < n
        invariant
            n == bytes@.len() / 2,
            2 * n <= bytes@.len() <= usize::MAX,
            i <= n,
            words@ == bytes_words(bytes@).subrange(0, i as int),
        decreases n - i,
    {
        let high: u16 = bytes[2 * i] as u16;
        let low: u16 = bytes[2 * i + 1] as u16;
        words.push(high * 256 + low);
        i = i + 1;
        assert(words@ =~= bytes_words(bytes@).subrange(0, i as int));
    }
    assert(words@ =~= bytes_words(bytes@));
    set_bulk(address, &words, bank)
}


/// 1 when cell `i` of `s` exists and is set, else 0.
pub open spec fn bit_at(s: Seq<bool>, i: int) -> int {
    if 0 <= i < s.len() && s[i] {
        1
    } else {
        0
    }
}

/// Byte `k` of the wire packing of `s`: cells `8k .. 8k + 8`, the lowest in bit 0, missing
/// cells as 0.
pub open spec fn packed_byte(s: Seq<bool>, k: int) -> u8 {
    (bit_at(s, 8 * k) + 2 * bit_at(s, 8 * k + 1) + 4 * bit_at(s, 8 * k + 2) + 8 * bit_at(s, 8 * k + 3)
        + 16 * bit_at(s, 8 * k + 4) + 32 * bit_at(s, 8 * k + 5) + 64 * bit_at(s, 8 * k + 6) + 128
        * bit_at(s, 8 * k + 7)) as u8
}

/// Booleans packed for the wire: eight per byte, low bit first, the last byte padded with zeros.
pub open spec fn bools_bytes(s: Seq<bool>) -> Seq<u8> {
    Seq::new((s.len() + 7) / 8, |k: int| packed_byte(s, k))
}

/// 1 when `from + i < to` and `bank[from + i]` is set, else 0.
fn bank_bit(bank: &Vec<bool>, from: usize, to: usize, i: usize) -> (r: u8)
    requires
        from <= to <= bank@.len(),
    ensures
        r as int == bit_at(bank@.subrange(from as int, to as int), i as int),
{
    if i < to - from && bank[from + i] {
        1
    } else {
        0
    }
}

/// Reads `count` booleans from `address` on, packed as on the wire.
pub fn get_bools_as_bytes(address: u16, count: u16, bank: &Vec<bool>) -> (r: Result<Vec<u8>, ContextError>)
    ensures
        range_ok(bank@.len() as int, address as int, count as int) ==> r is Ok
            && r->Ok_0@ == bools_bytes(bank@.subrange(address as int, address + count)),
        !range_ok(bank@.len() as int, address as int, count as int) ==> r
            == Err::<Vec<u8>, ContextError>(ContextError::OutOfRange),
{
    let from: usize = address as usize;
    let to: usize = address as usize + count as usize;
    if to > bank.len() {
        return Err(ContextError::OutOfRange);
    }
    let ghost cells = bank@.subrange(from as int, to as int);
    let n: usize = (count as usize + 7) / 8;
    let mut r: Vec<u8> = Vec::new();
    let mut k: usize = 0;
    while k < n
        invariant
            from <= to <= bank@.len(),
            to - from == count,
            n == (count + 7) / 8,
            n <= 8192,
            cells == bank@.subrange(from as int, to as int),
            k <= n,
            r@ == bools_bytes(cells).subrange(0, k as int),
        decreases n - k,
    {
        let b: usize = 8 * k;
        let v: u8 = bank_bit(bank, from, to, b) + 2 * bank_bit(bank, from, to, b + 1) + 4 * bank_bit(
            bank,
            from,
            to,
            b + 2,
        ) + 8 * bank_bit(bank, from, to, b + 3) + 16 * bank_bit(bank, from, to, b + 4) + 32
            * bank_bit(bank, from, to, b + 5) + 64 * bank_bit(bank, from, to, b + 6) + 128 * bank_bit(
            bank,
            from,
            to,
            b + 7,
        );
        r.push(v);
        k = k + 1;
        assert(r@ =~= bools_bytes(cells).subrange(0, k as int));
    }
    assert(r@ =~= bools_bytes(cells));
    Ok(r)
}

/// Bit `j` (0 the lowest) of `b`.
pub open spec fn byte_bit(b: u8, j: int) -> bool {
    (b >> (j as u8)) & 1u8 == 1u8
}

/// The first `count` booleans that `bytes` holds, eight per byte, low bit first.
pub open spec fn bytes_bools(bytes: Seq<u8>, count: int) -> Seq<bool> {
    Seq::new(count as nat, |i: int| byte_bit(bytes[i / 8], i % 8))
}

/// Writes `count` booleans, packed in `bytes` as on the wire, from `address` on. Fails, writing
/// nothing, when the range leaves the bank or `bytes` is too short to hold `count` booleans.
pub fn set_bools_from_bytes(address: u16, count: u16, bytes: &Vec<u8>, bank: &mut Vec<bool>) -> (r: Result<(), ContextError>)
    ensures
        !range_ok(old(bank)@.len() as int, address as int, count as int) ==> r
            == Err::<(), ContextError>(ContextError::OutOfRange),
        range_ok(old(bank)@.len() as int, address as int, count as int) && bytes@.len() < (count + 7) / 8
            ==> r == Err::<(), ContextError>(ContextError::Format),
        r is Err ==> final(bank)@ == old(bank)@,
        r is Ok <==> range_ok(old(bank)@.len() as int, address as int, count as int) && bytes@.len() >= (
        count + 7) / 8,
        r is Ok ==> final(bank)@ == written(old(bank)@, address as int, bytes_bools(bytes@, count as int)),
{
    if address as usize + count as usize > bank.len() {
        return Err(ContextError::OutOfRange);
    }
    if bytes.len() < (count as usize + 7) / 8 {
        return Err(ContextError::Format);
    }
    let mut values: Vec<bool> = Vec::new();
    let mut i: usize = 0;
    while i < count as usize
        invariant
            i <= count,
            bytes@.len() >= (count + 7) / 8,
            values@ == bytes_bools(bytes@, count as int).subrange(0, i as int),
        decreases count - i,
    {
        let j: u8 = (i % 8) as u8;
        values.push((bytes[i / 8] >> j) & 1 == 1);
        i = i + 1;
        assert(values@ =~= bytes_bools(bytes@, count as int).subrange(0, i as int));
    }
    assert(values@ =~= bytes_bools(bytes@, count as int));
    set_bulk(address, &values, bank)
}

/// One byte per boolean: 1 for true, 0 for false.
pub open spec fn flags_bytes(s: Seq<bool>) -> Seq<u8> {
    Seq::new(
        s.len(),
        |i: int|
            if s[i] {
                1u8
            } else {
                0u8
            },
    )
}

/// The snapshot of a context: coils and discrete inputs one byte per cell, then holding and
/// input registers two bytes per cell, high byte first.
pub open spec fn dump_of(v: ContextView) -> Seq<u8> {
    flags_bytes(v.coils) + flags_bytes(v.discretes) + words_bytes(v.holdings) + words_bytes(v.inputs)
}

/// The number of bytes in a snapshot of a context with the banks of `v`.
pub open spec fn dump_len(v: ContextView) -> int {
    (v.coils.len() + v.discretes.len() + 2 * v.holdings.len() + 2 * v.inputs.len()) as int
}

/// The context that `bytes` restores into a context with the bank sizes of `v`: none when the
/// length differs from a snapshot of such a context or a boolean cell is neither 0 nor 1.
pub open spec fn restored(v: ContextView, bytes: Seq<u8>) -> Option<ContextView> {
    let nc = v.coils.len() as int;
    let nd = v.discretes.len() as int;
    let nh = v.holdings.len() as int;
    if bytes.len() != dump_len(v) || exists|i: int| 0 <= i < nc + nd && bytes[i] > 1 {
        None
    } else {
        Some(
            ContextView {
                coils: Seq::new(nc as nat, |i: int| bytes[i] == 1),
                discretes: Seq::new(nd as nat, |i: int| bytes[nc + i] == 1),
                holdings: bytes_words(bytes.subrange(nc + nd, nc + nd + 2 * nh)),
                inputs: bytes_words(bytes.subrange(nc + nd + 2 * nh, bytes.len() as int)),
            },
        )
    }
}

/// Appends one byte per boolean of `bank` to `out`.
fn push_flags(bank: &Vec<bool>, out: &mut Vec<u8>)
    requires
        old(out)@.len() + bank@.len() <= usize::MAX,
    ensures
        final(out)@ == old(out)@ + flags_bytes(bank@),
{
    let mut i: usize = 0;
    while i < bank.len()
        invariant
            i <= bank@.len(),
            out@ == old(out)@ + flags_bytes(bank@.subrange(0, i as int)),
        decreases bank@.len() - i,
    {
        out.push(if bank[i] { 1u8 } else { 0u8 });
        i = i + 1;
        assert(out@ =~= old(out)@ + flags_bytes(bank@.subrange(0, i as int)));
    }
    assert(bank@.subrange(0, bank@.len() as int) =~= bank@);
}

/// Booleans read from `bytes[from .. from + n]`, 1 meaning true; none when a byte is over 1.
fn flags_from(bytes: &Vec<u8>, from: usize, n: usize) -> (r: Option<Vec<bool>>)
    requires
        from + n <= bytes@.len(),
    ensures
        r is Some <==> forall|i: int| from <= i < from + n ==> bytes@[i] <= 1,
        r is Some ==> r->Some_0@ == Seq::new(n as nat, |i: int| bytes@[from + i] == 1),
{
    let total: usize = bytes.len();
    let mut r: Vec<bool> = Vec::new();
    let mut i: usize = 0;
    while i < n
        invariant
            from + n <= bytes@.len() == total,
            i <= n,
            forall|k: int| from <= k < from + i ==> bytes@[k] <= 1,
            r@ == Seq::new(i as nat, |k: int| bytes@[from + k] == 1),
        decreases n - i,
    {
        let b: u8 = bytes[from + i];
        if b > 1 {
            return None;
        }
        r.push(b == 1);
        i = i + 1;
        assert(r@ =~= Seq::new(i as nat, |k: int| bytes@[from + k] == 1));
    }
    Some(r)
}

/// Words read from `bytes[from .. from + 2n]`, high byte first.
fn words_from(bytes: &Vec<u8>, from: usize, n: usize) -> (r: Vec<u16>)
    requires
        from + 2 * n <= bytes@.len(),
    ensures
        r@ == bytes_words(bytes@.subrange(from as int, from + 2 * n)),
{
    let ghost src = bytes@.subrange(from as int, from + 2 * n);
    let total: usize = bytes.len();
    let mut r: Vec<u16> = Vec::new();
    let mut i: usize = 0;
    while i < n
        invariant
            from + 2 * n <= bytes@.len() == total,
            src == bytes@.subrange(from as int, from + 2 * n),
            i <= n,
            r@ == bytes_words(src).subrange(0, i as int),
        decreases n - i,
    {
        let high: u16 = bytes[from + 2 * i] as u16;
        let low: u16 = bytes[from + 2 * i + 1] as u16;
        r.push(high * 256 + low);
        i = i + 1;
        assert(r@ =~= bytes_words(src).subrange(0, i as int));
    }
    assert(r@ =~= bytes_words(src));
    r
}

impl ModbusContext {
    /// The snapshot of all four banks; see `dump_of`.
    pub fn dump(&self) -> (r: Vec<u8>)
        requires
            self@.wf(),
        ensures
            r@ == dump_of(self@),
    {
        let mut r: Vec<u8> = Vec::new();
        push_flags(&self.coils, &mut r);
        push_flags(&self.discretes, &mut r);
        push_words_bytes(&self.holdings, 0, self.holdings.len(), &mut r);
        push_words_bytes(&self.inputs, 0, self.inputs.len(), &mut r);
        assert(self.holdings@.subrange(0, self.holdings@.len() as int) =~= self.holdings@);
        assert(self.inputs@.subrange(0, self.inputs@.len() as int) =~= self.inputs@);
        r
    }

    /// Replaces all four banks with the contents of a snapshot; see `restored`. On failure no
    /// bank changes.
    pub fn restore(&mut self, bytes: &Vec<u8>) -> (r: Result<(), ContextError>)
        requires
            old(self)@.wf(),
        ensures
            r is Ok <==> restored(old(self)@, bytes@) is Some,
            r is Ok ==> final(self)@ == restored(old(self)@, bytes@)->Some_0,
            r is Err ==> r == Err::<(), ContextError>(ContextError::Format) && final(self)@ == old(self)@,
    {
        let nc: usize = self.coils.len();
        let nd: usize = self.discretes.len();
        let nh: usize = self.holdings.len();
        let ni: usize = self.inputs.len();
        if bytes.len() != nc + nd + 2 * nh + 2 * ni {
            return Err(ContextError::Format);
        }
        let coils = match flags_from(bytes, 0, nc) {
            Some(v) => v,
            None => {
                return Err(ContextError::Format);
            },
        };
        let discretes = match flags_from(bytes, nc, nd) {
            Some(v) => v,
            None => {
                assert(exists|i: int| 0 <= i < nc + nd && bytes@[i] > 1);
                return Err(ContextError::Format);
            },
        };
        let holdings = words_from(bytes, nc + nd, nh);
        let inputs = words_from(bytes, nc + nd + 2 * nh, ni);
        self.coils = coils;
        self.discretes = discretes;
        self.holdings = holdings;
        self.inputs = inputs;
        proof {
            let v = restored(old(self)@, bytes@)->Some_0;
            assert(self@.coils =~= v.coils);
            assert(self@.discretes =~= v.discretes);
        }
        Ok(())
    }
}


/// A snapshot of a context restores, into any context whose banks have the same sizes, exactly
/// the four banks it was taken from.
pub proof fn lemma_dump_then_restore(a: ContextView, b: ContextView)
    requires
        a.wf(),
        a.same_sizes(b),
    ensures
        restored(b, dump_of(a)) == Some(a),
{
    let d = dump_of(a);
    let nc = a.coils.len() as int;
    let nd = a.discretes.len() as int;
    let nh = a.holdings.len() as int;
    let fc = flags_bytes(a.coils);
    let fd = flags_bytes(a.discretes);
    let wh = words_bytes(a.holdings);
    let wi = words_bytes(a.inputs);
    assert(d.len() == dump_len(b));
    assert forall|i: int| 0 <= i < nc + nd implies d[i] <= 1 by {
        if i < nc {
            assert(d[i] == fc[i]);
        } else {
            assert(d[i] == fd[i - nc]);
        }
    }
    let v = restored(b, d)->Some_0;
    assert(v.coils =~= a.coils) by {
        assert forall|i: int| 0 <= i < nc implies d[i] == fc[i] by {}
    }
    assert(v.discretes =~= a.discretes) by {
        assert forall|i: int| 0 <= i < nd implies d[nc + i] == fd[i] by {}
    }
    assert(d.subrange(nc + nd, nc + nd + 2 * nh) =~= wh);
    assert(d.subrange(nc + nd + 2 * nh, d.len() as int) =~= wi);
    lemma_words_round_trip(a.holdings);
    lemma_words_round_trip(a.inputs);
}

/// Reading back the bytes of a sequence of words gives the words.
proof fn lemma_words_round_trip(s: Seq<u16>)
    ensures
        bytes_words(words_bytes(s)) == s,
{
    let b = words_bytes(s);
    assert forall|i: int| 0 <= i < s.len() implies bytes_words(b)[i] == s[i] by {
        assert((2 * i) / 2 == i);
        assert((2 * i + 1) / 2 == i);
        assert((2 * i) % 2 == 0);
        assert((2 * i + 1) % 2 == 1);
        let w = s[i];
        assert((w / 256) as u8 as int * 256 + (w % 256) as u8 as int == w);
    }
    assert(bytes_words(b) =~= s);
}

} // verus!
