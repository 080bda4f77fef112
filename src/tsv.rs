use vstd::prelude::*;

verus! {

/// The character for a decimal digit `d` (`0 <= d < 10`).
pub open spec fn digit_char(d: nat) -> char {
    ('0' as u8 + d) as char
}

/// Decimal digits of a natural number, most significant first, no leading zeros.
pub open spec fn digits(n: nat) -> Seq<char>
    decreases n,
{
    if n < 10 {
        seq![digit_char(n)]
    } else {
        digits(n / 10).push(digit_char(n % 10))
    }
}

/// The plain decimal text of an integer, with a leading `-` when negative.
pub open spec fn decimal(n: int) -> Seq<char> {
    if n < 0 {
        seq!['-'] + digits((-n) as nat)
    } else {
        digits(n as nat)
    }
}

/// A text with every quote character doubled.
pub open spec fn escape_quotes(s: Seq<char>) -> Seq<char>
    decreases s.len(),
{
    if s.len() == 0 {
        Seq::empty()
    } else {
        let last = s.last();
        escape_quotes(s.drop_last()) + if last == '"' {
            seq!['"', '"']
        } else {
            seq![last]
        }
    }
}

/// A text rendered as a row field: quoted, with inner quotes doubled.
pub open spec fn quoted(s: Seq<char>) -> Seq<char> {
    seq!['"'] + escape_quotes(s) + seq!['"']
}

/// Reads a doubled quote back as one quote, front to back.
pub open spec fn unescape_quotes(s: Seq<char>) -> Seq<char>
    decreases s.len(),
{
    if s.len() == 0 {
        Seq::empty()
    } else if s.len() >= 2 && s[0] == '"' && s[1] == '"' {
        seq!['"'] + unescape_quotes(s.skip(2))
    } else {
        seq![s[0]] + unescape_quotes(s.skip(1))
    }
}

/// The text inside a quoted row field: the outer quotes taken off and each
/// doubled quote read back as one.
pub open spec fn unquoted(r: Seq<char>) -> Seq<char> {
    unescape_quotes(r.subrange(1, r.len() - 1))
}

proof fn lemma_escape_concat(a: Seq<char>, b: Seq<char>)
    ensures
        escape_quotes(a + b) == escape_quotes(a) + escape_quotes(b),
    decreases b.len(),
{
    if b.len() == 0 {
        assert(a + b =~= a);
        assert(escape_quotes(a) + escape_quotes(b) =~= escape_quotes(a));
    } else {
        lemma_escape_concat(a, b.drop_last());
        assert((a + b).drop_last() =~= a + b.drop_last());
        assert((a + b).last() == b.last());
    }
}

proof fn lemma_unescape_escape(t: Seq<char>)
    ensures
        unescape_quotes(escape_quotes(t)) == t,
    decreases t.len(),
{
    if t.len() > 0 {
        let head = seq![t[0]];
        let rest = t.skip(1);
        assert(t =~= head + rest);
        lemma_escape_concat(head, rest);
        assert(head.drop_last() =~= Seq::<char>::empty());
        assert(escape_quotes(head.drop_last()) == Seq::<char>::empty());
        assert(head.last() == t[0]);
        lemma_unescape_escape(rest);
        let e = escape_quotes(t);
        if t[0] == '"' {
            assert(escape_quotes(head) =~= seq!['"', '"']);
            assert(e.skip(2) =~= escape_quotes(rest));
        } else {
            assert(escape_quotes(head) =~= seq![t[0]]);
            assert(e.skip(1) =~= escape_quotes(rest));
        }
        assert(unescape_quotes(e) =~= t);
    }
}

/// A quoted text field reads back as the text: it begins and ends with a quote,
/// and taking those off and reading each doubled quote as one gives the text.
pub proof fn lemma_quoted_reads_back(t: Seq<char>)
    ensures
        quoted(t).len() >= 2,
        quoted(t)[0] == '"',
        quoted(t).last() == '"',
        unquoted(quoted(t)) == t,
{
    let q = quoted(t);
    assert(q.subrange(1, q.len() - 1) =~= escape_quotes(t));
    lemma_unescape_escape(t);
}

/// Fields joined by single tabs, with no trailing tab; no fields give the empty text.
pub open spec fn join_tabs(fields: Seq<Seq<char>>) -> Seq<char>
    decreases fields.len(),
{
    if fields.len() == 0 {
        Seq::empty()
    } else if fields.len() == 1 {
        fields[0]
    } else {
        join_tabs(fields.drop_last()) + seq!['\t'] + fields.last()
    }
}

/// The position of the last tab among the first `n` characters.
pub open spec fn last_tab(s: Seq<char>, n: int) -> Option<int>
    decreases n,
{
    if n <= 0 {
        None
    } else if s[n - 1] == '\t' {
        Some(n - 1)
    } else {
        last_tab(s, n - 1)
    }
}

/// A row cut at its tabs into fields.
pub open spec fn split_tabs(s: Seq<char>) -> Seq<Seq<char>>
    decreases s.len(),
{
    match last_tab(s, s.len() as int) {
        Some(i) => if 0 <= i < s.len() {
            split_tabs(s.take(i)).push(s.skip(i + 1))
        } else {
            seq![s]
        },
        None => seq![s],
    }
}

/// The number of tabs in a text.
pub open spec fn tab_count(s: Seq<char>) -> nat
    decreases s.len(),
{
    if s.len() == 0 {
        0
    } else {
        tab_count(s.drop_last()) + if s.last() == '\t' { 1nat } else { 0nat }
    }
}

pub open spec fn tab_free(s: Seq<char>) -> bool {
    forall|k: int| 0 <= k < s.len() ==> #[trigger] s[k] != '\t'
}

proof fn lemma_last_tab_none(s: Seq<char>, n: int)
    requires
        tab_free(s),
        n <= s.len(),
    ensures
        last_tab(s, n) is None,
    decreases n,
{
    if n > 0 {
        lemma_last_tab_none(s, n - 1);
    }
}

proof fn lemma_last_tab_after(a: Seq<char>, b: Seq<char>, n: int)
    requires
        tab_free(b),
        a.len() + 1 <= n <= a.len() + 1 + b.len(),
    ensures
        last_tab(a + seq!['\t'] + b, n) == Some(a.len() as int),
    decreases n,
{
    let s = a + seq!['\t'] + b;
    if n > a.len() + 1 {
        assert(s[n - 1] == b[n - 2 - a.len()]);
        lemma_last_tab_after(a, b, n - 1);
    } else {
        assert(s[n - 1] == '\t');
    }
}

proof fn lemma_tab_count_concat(a: Seq<char>, b: Seq<char>)
    ensures
        tab_count(a + b) == tab_count(a) + tab_count(b),
    decreases b.len(),
{
    if b.len() == 0 {
        assert(a + b =~= a);
    } else {
        lemma_tab_count_concat(a, b.drop_last());
        assert((a + b).drop_last() =~= a + b.drop_last());
    }
}

proof fn lemma_tab_free_count(s: Seq<char>)
    requires
        tab_free(s),
    ensures
        tab_count(s) == 0,
    decreases s.len(),
{
    if s.len() > 0 {
        lemma_tab_free_count(s.drop_last());
    }
}

/// A row of `n >= 1` fields none of which holds a tab has exactly `n - 1`
/// tabs, and cutting it at its tabs gives the fields back.
pub proof fn lemma_row_splits_back(fields: Seq<Seq<char>>)
    requires
        fields.len() >= 1,
        forall|i: int| 0 <= i < fields.len() ==> tab_free(#[trigger] fields[i]),
    ensures
        tab_count(join_tabs(fields)) == fields.len() - 1,
        split_tabs(join_tabs(fields)) == fields,
    decreases fields.len(),
{
    if fields.len() == 1 {
        lemma_tab_free_count(fields[0]);
        assert(join_tabs(fields) == fields[0]);
        lemma_last_tab_none(fields[0], fields[0].len() as int);
        assert(split_tabs(fields[0]) == seq![fields[0]]);
        assert(seq![fields[0]] =~= fields);
    } else {
        let init = fields.drop_last();
        let a = join_tabs(init);
        let b = fields.last();
        assert(tab_free(b));
        lemma_row_splits_back(init);
        let s = a + seq!['\t'] + b;
        assert(join_tabs(fields) == s);
        lemma_tab_count_concat(a + seq!['\t'], b);
        lemma_tab_count_concat(a, seq!['\t']);
        assert(seq!['\t'].drop_last() =~= Seq::<char>::empty());
        assert(tab_count(Seq::<char>::empty()) == 0);
        assert(tab_count(seq!['\t']) == 1);
        lemma_tab_free_count(b);
        lemma_last_tab_after(a, b, s.len() as int);
        assert(s.take(a.len() as int) =~= a);
        assert(s.skip(a.len() + 1int) =~= b);
        assert(init.push(b) =~= fields);
    }
}

/// Relies on String::push: appends one character.
#[verifier::external_body]
pub(crate) fn push_char(s: &mut String, c: char)
    ensures
        final(s)@ == old(s)@.push(c),
{
    s.push(c)
}

/// Appends the decimal digits of `n`.
pub fn push_digits(s: &mut String, n: u128)
    ensures
        final(s)@ == old(s)@ + digits(n as nat),
    decreases n,
{
    if n >= 10 {
        push_digits(s, n / 10);
    }
    let d = (n % 10) as u8;
    push_char(s, (48u8 + d) as char);
    assert(final(s)@ =~= old(s)@ + digits(n as nat));
}

/// The decimal text of a signed integer.
pub fn signed_decimal(n: i128) -> (r: String)
    ensures
        r@ == decimal(n as int),
{
    let mut s = String::new();
    if n < 0 {
        push_char(&mut s, '-');
        let m: u128 = ((-(n + 1)) as u128) + 1;
        push_digits(&mut s, m);
    } else {
        push_digits(&mut s, n as u128);
    }
    s
}

/// The decimal text of an unsigned integer.
pub fn unsigned_decimal(n: u128) -> (r: String)
    ensures
        r@ == decimal(n as int),
{
    let mut s = String::new();
    push_digits(&mut s, n);
    s
}

/// Renders a text as a quoted row field, doubling its quote characters.
pub fn quote_text(t: &str) -> (r: String)
    ensures
        r@ == quoted(t@),
{
    let mut s = String::new();
    push_char(&mut s, '"');
    let n = t.unicode_len();
    let mut i: usize = 0;
    while i < n
        invariant
            n == t@.len(),
            i <= n,
            s@ == seq!['"'] + escape_quotes(t@.take(i as int)),
        decreases n - i,
    {
        let c = t.get_char(i);
        push_char(&mut s, c);
        if c == '"' {
            push_char(&mut s, '"');
        }
        assert(t@.take(i + 1).drop_last() =~= t@.take(i as int));
        i = i + 1;
    }
    push_char(&mut s, '"');
    assert(t@.take(n as int) =~= t@);
    s
}

/// A value that can be written as one tab-separated row.
pub trait TSVSerializable {
    /// The row text of the value.
    spec fn tsv_spec(&self) -> Seq<char>;

    fn to_tsv_format(&self) -> (r: String)
        ensures
            r@ == self.tsv_spec(),
    ;
}

impl TSVSerializable for bool {
    open spec fn tsv_spec(&self) -> Seq<char> {
        if *self {
            seq!['t', 'r', 'u', 'e']
        } else {
            seq!['f', 'a', 'l', 's', 'e']
        }
    }

    fn to_tsv_format(&self) -> (r: String) {
        let mut s = String::new();
        if *self {
            push_char(&mut s, 't');
            push_char(&mut s, 'r');
            push_char(&mut s, 'u');
            push_char(&mut s, 'e');
        } else {
            push_char(&mut s, 'f');
            push_char(&mut s, 'a');
            push_char(&mut s, 'l');
            push_char(&mut s, 's');
            push_char(&mut s, 'e');
        }
        assert(s@ =~= self.tsv_spec());
        s
    }
}

impl TSVSerializable for char {
    open spec fn tsv_spec(&self) -> Seq<char> {
        seq![*self]
    }

    fn to_tsv_format(&self) -> (r: String) {
        let mut s = String::new();
        push_char(&mut s, *self);
        assert(s@ =~= self.tsv_spec());
        s
    }
}

impl TSVSerializable for u8 {
    open spec fn tsv_spec(&self) -> Seq<char> {
        decimal(*self as int)
    }

    fn to_tsv_format(&self) -> (r: String) {
        unsigned_decimal(*self as u128)
    }
}

impl TSVSerializable for u16 {
    open spec fn tsv_spec(&self) -> Seq<char> {
        decimal(*self as int)
    }

    fn to_tsv_format(&self) -> (r: String) {
        unsigned_decimal(*self as u128)
    }
}

impl TSVSerializable for u32 {
    open spec fn tsv_spec(&self) -> Seq<char> {
        decimal(*self as int)
    }

    fn to_tsv_format(&self) -> (r: String) {
        unsigned_decimal(*self as u128)
    }
}

impl TSVSerializable for u64 {
    open spec fn tsv_spec(&self) -> Seq<char> {
        decimal(*self as int)
    }

    fn to_tsv_format(&self) -> (r: String) {
        unsigned_decimal(*self as u128)
    }
}

impl TSVSerializable for u128 {
    open spec fn tsv_spec(&self) -> Seq<char> {
        decimal(*self as int)
    }

    fn to_tsv_format(&self) -> (r: String) {
        unsigned_decimal(*self)
    }
}

impl TSVSerializable for usize {
    open spec fn tsv_spec(&self) -> Seq<char> {
        decimal(*self as int)
    }

    fn to_tsv_format(&self) -> (r: String) {
        unsigned_decimal(*self as u128)
    }
}

impl TSVSerializable for i8 {
    open spec fn tsv_spec(&self) -> Seq<char> {
        decimal(*self as int)
    }

    fn to_tsv_format(&self) -> (r: String) {
        signed_decimal(*self as i128)
    }
}

impl TSVSerializable for i16 {
    open spec fn tsv_spec(&self) -> Seq<char> {
        decimal(*self as int)
    }

    fn to_tsv_format(&self) -> (r: String) {
        signed_decimal(*self as i128)
    }
}

impl TSVSerializable for i32 {
    open spec fn tsv_spec(&self) -> Seq<char> {
        decimal(*self as int)
    }

    fn to_tsv_format(&self) -> (r: String) {
        signed_decimal(*self as i128)
    }
}

impl TSVSerializable for i64 {
    open spec fn tsv_spec(&self) -> Seq<char> {
        decimal(*self as int)
    }

    fn to_tsv_format(&self) -> (r: String) {
        signed_decimal(*self as i128)
    }
}

impl TSVSerializable for i128 {
    open spec fn tsv_spec(&self) -> Seq<char> {
        decimal(*self as int)
    }

    fn to_tsv_format(&self) -> (r: String) {
        signed_decimal(*self)
    }
}

impl TSVSerializable for String {
    open spec fn tsv_spec(&self) -> Seq<char> {
        quoted(self@)
    }

    fn to_tsv_format(&self) -> (r: String) {
        quote_text(self.as_str())
    }
}

impl<'a> TSVSerializable for &'a str {
    open spec fn tsv_spec(&self) -> Seq<char> {
        quoted((*self)@)
    }

    fn to_tsv_format(&self) -> (r: String) {
        quote_text(*self)
    }
}

impl<T: TSVSerializable> TSVSerializable for Vec<T> {
    open spec fn tsv_spec(&self) -> Seq<char> {
        join_tabs(self@.map_values(|x: T| x.tsv_spec()))
    }

    fn to_tsv_format(&self) -> (r: String) {
        let ghost fields = self@.map_values(|x: T| x.tsv_spec());
        let mut s = String::new();
        let mut i: usize = 0;
        while i < self.len()
            invariant
                i <= self@.len(),
                fields == self@.map_values(|x: T| x.tsv_spec()),
                s@ == join_tabs(fields.take(i as int)),
            decreases self@.len() - i,
        {
            let f = self[i].to_tsv_format();
            if i > 0 {
                push_char(&mut s, '\t');
            }
            s.append(f.as_str());
            assert(fields.take(i + 1).drop_last() =~= fields.take(i as int));
            i = i + 1;
        }
        assert(fields.take(self@.len() as int) =~= fields);
        s
    }
}

impl<T: TSVSerializable> TSVSerializable for Box<T> {
    open spec fn tsv_spec(&self) -> Seq<char> {
        (**self).tsv_spec()
    }

    fn to_tsv_format(&self) -> (r: String) {
        (**self).to_tsv_format()
    }
}

impl TSVSerializable for Box<dyn TSVSerializable> {
    open spec fn tsv_spec(&self) -> Seq<char> {
        (**self).tsv_spec()
    }

    fn to_tsv_format(&self) -> (r: String) {
        (**self).to_tsv_format()
    }
}

} // verus!
