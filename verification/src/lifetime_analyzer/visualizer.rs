//! Textual renderings of lifetimes: addresses, elements, and for each
//! function a table of the registers live in and out at each address.
use vstd::prelude::*;
use vstd::string::StrSliceExecFns;
use crate::lifetime_analyzer::domain::{FunctionLifetime, IRAddress, LifetimeElement, LifetimeTable};
use crate::order::{in_order, sorted_unique};
use crate::text::{decimal, push_char, push_str, usize_to_text};
use crate::virtual_register::VirtualRegister;

verus! {

/// `p<block>+<position>`.
pub open spec fn address_text(a: IRAddress) -> Seq<char> {
    "p"@ + decimal(a.id as nat) + "+"@ + decimal(a.offset as nat)
}

/// `%<id>`.
pub open spec fn register_text(r: VirtualRegister) -> Seq<char> {
    seq!['%'] + decimal(r.id as nat)
}

/// The registers' texts separated by `, `.
pub open spec fn registers_text(rs: Seq<VirtualRegister>) -> Seq<char>
    decreases rs.len(),
{
    if rs.len() == 0 {
        Seq::empty()
    } else if rs.len() == 1 {
        register_text(rs[0])
    } else {
        registers_text(rs.drop_last()) + ", "@ + register_text(rs.last())
    }
}

/// The addresses' texts separated by `, `.
pub open spec fn addresses_text(xs: Seq<IRAddress>) -> Seq<char>
    decreases xs.len(),
{
    if xs.len() == 0 {
        Seq::empty()
    } else if xs.len() == 1 {
        address_text(xs[0])
    } else {
        addresses_text(xs.drop_last()) + ", "@ + address_text(xs.last())
    }
}

/// A register and where it is read and assigned.
pub open spec fn element_text(e: LifetimeElement) -> Seq<char> {
    register_text(e.reg) + "\n  ref = ["@ + addresses_text(e.references@) + "]\n  assign = ["@ + addresses_text(e.assigns@) + "]"@
}

/// The position of the first entry for `a`, or -1.
pub open spec fn entry_index(sets: Seq<(IRAddress, Vec<VirtualRegister>)>, a: IRAddress) -> int
    decreases sets.len(),
{
    if sets.len() == 0 {
        -1
    } else {
        let i = entry_index(sets.drop_last(), a);
        if i >= 0 {
            i
        } else if sets.last().0 == a {
            sets.len() - 1
        } else {
            -1
        }
    }
}

/// A cell of the table: the registers of the entry for `a` in increasing
/// order, or `-` without an entry.
pub open spec fn cell_text(sets: Seq<(IRAddress, Vec<VirtualRegister>)>, a: IRAddress) -> Seq<char> {
    let i = entry_index(sets, a);
    if i < 0 {
        "-"@
    } else {
        registers_text(in_order(sets[i].1@.to_set()))
    }
}

/// The addresses of a table: those with an entry in either list, in
/// increasing order.
pub open spec fn table_addresses(l: FunctionLifetime) -> Seq<IRAddress> {
    in_order((l.live_in@.map_values(|e: (IRAddress, Vec<VirtualRegister>)| e.0)
        + l.live_out@.map_values(|e: (IRAddress, Vec<VirtualRegister>)| e.0)).to_set())
}

pub open spec fn cells(sets: Seq<(IRAddress, Vec<VirtualRegister>)>, addrs: Seq<IRAddress>) -> Seq<Seq<char>> {
    addrs.map_values(|a: IRAddress| cell_text(sets, a))
}

/// The widest text, or zero.
pub open spec fn widest(cs: Seq<Seq<char>>) -> nat
    decreases cs.len(),
{
    if cs.len() == 0 {
        0
    } else {
        let w = widest(cs.drop_last());
        if cs.last().len() > w {
            cs.last().len()
        } else {
            w
        }
    }
}

pub open spec fn column_width(title: Seq<char>, cs: Seq<Seq<char>>) -> nat {
    if widest(cs) > title.len() {
        widest(cs)
    } else {
        title.len()
    }
}

pub open spec fn repeat(c: char, n: nat) -> Seq<char> {
    Seq::new(n, |i: int| c)
}

/// Left-aligned in a field of `w` characters.
pub open spec fn padded(s: Seq<char>, w: nat) -> Seq<char> {
    if s.len() < w {
        s + repeat(' ', (w - s.len()) as nat)
    } else {
        s
    }
}

pub open spec fn rule(w_in: nat, w_out: nat) -> Seq<char> {
    "-------+"@ + repeat('-', w_in + 2) + "+"@ + repeat('-', w_out + 2) + "\n"@
}

pub open spec fn rows(addrs: Seq<IRAddress>, cin: Seq<Seq<char>>, cout: Seq<Seq<char>>, w_in: nat, w_out: nat, n: nat) -> Seq<char>
    decreases n,
{
    if n == 0 {
        Seq::empty()
    } else {
        let k = n - 1;
        rows(addrs, cin, cout, w_in, w_out, (n - 1) as nat) + padded(address_text(addrs[k]), 6) + " | "@ + padded(cin[k], w_in)
            + " | "@ + padded(cout[k], w_out) + "\n"@
    }
}

/// The table of a function's live registers.
pub open spec fn live_table(l: FunctionLifetime) -> Seq<char> {
    let addrs = table_addresses(l);
    let cin = cells(l.live_in@, addrs);
    let cout = cells(l.live_out@, addrs);
    let w_in = column_width("Live In"@, cin);
    let w_out = column_width("Live Out"@, cout);
    rule(w_in, w_out) + "Addr   | "@ + padded("Live In"@, w_in) + " | "@ + padded("Live Out"@, w_out) + "\n"@ + rule(w_in, w_out)
        + rows(addrs, cin, cout, w_in, w_out, addrs.len())
}

/// A function's lifetimes: the table of what is live at each address.
pub open spec fn function_lifetime_text(l: FunctionLifetime) -> Seq<char> {
    live_table(l)
}

/// The functions' texts separated by blank lines.
pub open spec fn lifetime_table_text(fs: Seq<FunctionLifetime>) -> Seq<char>
    decreases fs.len(),
{
    if fs.len() == 0 {
        Seq::empty()
    } else if fs.len() == 1 {
        function_lifetime_text(fs[0])
    } else {
        lifetime_table_text(fs.drop_last()) + "\n\n"@ + function_lifetime_text(fs.last())
    }
}

fn registers_to_text(rs: &Vec<VirtualRegister>) -> (r: String)
    ensures
        r@ == registers_text(rs@),
{
    let mut out = String::new();
    let mut i: usize = 0;
    proof {
        assert(rs@.subrange(0, 0) =~= Seq::<VirtualRegister>::empty());
    }
    while i < rs.len()
        invariant
            i <= rs@.len(),
            out@ == registers_text(rs@.subrange(0, i as int)),
        decreases rs.len() - i,
    {
        let ghost sub = rs@.subrange(0, i + 1);
        let ghost before = out@;
        proof {
            assert(sub.drop_last() =~= rs@.subrange(0, i as int));
            assert(sub.last() == rs@[i as int]);
        }
        if i > 0 {
            push_str(&mut out, ", ");
        }
        let t = rs[i].to_text();
        push_str(&mut out, t.as_str());
        proof {
            if i == 0 {
                assert(sub.len() == 1);
            }
            assert(out@ =~= registers_text(sub));
        }
        i += 1;
    }
    proof {
        assert(rs@.subrange(0, i as int) =~= rs@);
    }
    out
}

fn addresses_to_text(xs: &Vec<IRAddress>) -> (r: String)
    ensures
        r@ == addresses_text(xs@),
{
    let mut out = String::new();
    let mut i: usize = 0;
    proof {
        assert(xs@.subrange(0, 0) =~= Seq::<IRAddress>::empty());
    }
    while i < xs.len()
        invariant
            i <= xs@.len(),
            out@ == addresses_text(xs@.subrange(0, i as int)),
        decreases xs.len() - i,
    {
        let ghost sub = xs@.subrange(0, i + 1);
        proof {
            assert(sub.drop_last() =~= xs@.subrange(0, i as int));
            assert(sub.last() == xs@[i as int]);
        }
        if i > 0 {
            push_str(&mut out, ", ");
        }
        let t = xs[i].to_text();
        push_str(&mut out, t.as_str());
        proof {
            if i == 0 {
                assert(sub.len() == 1);
            }
            assert(out@ =~= addresses_text(sub));
        }
        i += 1;
    }
    proof {
        assert(xs@.subrange(0, i as int) =~= xs@);
    }
    out
}

impl IRAddress {
    /// `p<block>+<position>`.
    pub fn to_text(&self) -> (r: String)
        ensures
            r@ == address_text(*self),
    {
        let mut s = String::new();
        push_str(&mut s, "p");
        let id = usize_to_text(self.id);
        push_str(&mut s, id.as_str());
        push_str(&mut s, "+");
        let offset = usize_to_text(self.offset);
        push_str(&mut s, offset.as_str());
        s
    }
}

impl LifetimeElement {
    /// The register, then its reads and assignments on indented lines.
    pub fn to_text(&self) -> (r: String)
        ensures
            r@ == element_text(*self),
    {
        let mut s = self.reg.to_text();
        push_str(&mut s, "\n  ref = [");
        let refs = addresses_to_text(&self.references);
        push_str(&mut s, refs.as_str());
        push_str(&mut s, "]\n  assign = [");
        let assigns = addresses_to_text(&self.assigns);
        push_str(&mut s, assigns.as_str());
        push_str(&mut s, "]");
        s
    }
}

/// Appends `n` copies of a character.
fn push_repeat(s: &mut String, c: char, n: usize)
    ensures
        final(s)@ == old(s)@ + repeat(c, n as nat),
{
    let mut i: usize = 0;
    while i < n
        invariant
            i <= n,
            s@ == old(s)@ + repeat(c, i as nat),
        decreases n - i,
    {
        push_char(s, c);
        i += 1;
        proof {
            assert(s@ =~= old(s)@ + repeat(c, i as nat));
        }
    }
}

/// Appends `t` left-aligned in a field of `w` characters.
fn push_padded(s: &mut String, t: &str, w: usize)
    ensures
        final(s)@ == old(s)@ + padded(t@, w as nat),
{
    push_str(s, t);
    let n = t.unicode_len();
    if n < w {
        push_repeat(s, ' ', w - n);
    }
    proof {
        assert(s@ =~= old(s)@ + padded(t@, w as nat));
    }
}

fn push_rule(s: &mut String, w_in: usize, w_out: usize)
    ensures
        final(s)@ == old(s)@ + rule(w_in as nat, w_out as nat),
{
    push_str(s, "-------+");
    push_str(s, "--");
    push_repeat(s, '-', w_in);
    push_str(s, "+");
    push_str(s, "--");
    push_repeat(s, '-', w_out);
    push_str(s, "\n");
    proof {
        reveal_strlit("--");
        assert(repeat('-', w_in as nat + 2) =~= "--"@ + repeat('-', w_in as nat));
        assert(repeat('-', w_out as nat + 2) =~= "--"@ + repeat('-', w_out as nat));
        assert(s@ =~= old(s)@ + rule(w_in as nat, w_out as nat));
    }
}

/// The cell texts of a column.
fn column(sets: &Vec<(IRAddress, Vec<VirtualRegister>)>, addrs: &Vec<IRAddress>) -> (r: Vec<String>)
    ensures
        r@.len() == addrs@.len(),
        forall|k: int| 0 <= k < addrs@.len() ==> (#[trigger] r@[k])@ == cell_text(sets@, addrs@[k]),
{
    let mut out: Vec<String> = Vec::new();
    let mut k: usize = 0;
    while k < addrs.len()
        invariant
            k <= addrs@.len(),
            out@.len() == k,
            forall|j: int| 0 <= j < k ==> (#[trigger] out@[j])@ == cell_text(sets@, addrs@[j]),
        decreases addrs.len() - k,
    {
        let a = addrs[k];
        let mut i: usize = 0;
        proof {
            assert(sets@.subrange(0, 0) =~= Seq::<(IRAddress, Vec<VirtualRegister>)>::empty());
        }
        while i < sets.len()
            invariant_except_break
                i <= sets@.len(),
                entry_index(sets@.subrange(0, i as int), a) == -1,
            ensures
                i <= sets@.len(),
                i < sets@.len() ==> entry_index(sets@, a) == i,
                i == sets@.len() ==> entry_index(sets@.subrange(0, i as int), a) == -1,
            decreases sets.len() - i,
        {
            proof {
                assert(sets@.subrange(0, i + 1).drop_last() =~= sets@.subrange(0, i as int));
            }
            if sets[i].0 == a {
                proof {
                    lemma_entry_index_prefix(sets@, a, i + 1);
                }
                break;
            }
            i += 1;
        }
        proof {
            if i == sets@.len() {
                assert(sets@.subrange(0, i as int) =~= sets@);
            }
        }
        let cell = if i < sets.len() {
            let regs = sorted_unique(&sets[i].1);
            registers_to_text(&regs)
        } else {
            "-".to_string()
        };
        out.push(cell);
        k += 1;
    }
    out
}

proof fn lemma_entry_index_prefix(sets: Seq<(IRAddress, Vec<VirtualRegister>)>, a: IRAddress, n: int)
    requires
        1 <= n <= sets.len(),
        entry_index(sets.subrange(0, n - 1), a) == -1,
        sets[n - 1].0 == a,
    ensures
        entry_index(sets, a) == n - 1,
    decreases sets.len(),
{
    if n == sets.len() {
        assert(sets.drop_last() =~= sets.subrange(0, n - 1));
    } else {
        assert(sets.drop_last().subrange(0, n - 1) =~= sets.subrange(0, n - 1));
        lemma_entry_index_prefix(sets.drop_last(), a, n);
    }
}

/// The width of a column: its widest cell, and at least its title.
fn width_of(title: &str, cs: &Vec<String>) -> (r: usize)
    ensures
        r == column_width(title@, cs@.map_values(|c: String| c@)),
{
    let ghost views = cs@.map_values(|c: String| c@);
    let mut w: usize = 0;
    let mut i: usize = 0;
    proof {
        assert(views.subrange(0, 0) =~= Seq::<Seq<char>>::empty());
    }
    while i < cs.len()
        invariant
            i <= cs@.len(),
            views == cs@.map_values(|c: String| c@),
            w == widest(views.subrange(0, i as int)),
        decreases cs.len() - i,
    {
        proof {
            assert(views.subrange(0, i + 1).drop_last() =~= views.subrange(0, i as int));
            assert(views.subrange(0, i + 1).last() == cs@[i as int]@);
        }
        let n = cs[i].as_str().unicode_len();
        if n > w {
            w = n;
        }
        i += 1;
    }
    proof {
        assert(views.subrange(0, i as int) =~= views);
    }
    let t = title.unicode_len();
    if w > t {
        w
    } else {
        t
    }
}

impl FunctionLifetime {
    /// A table of the registers live in and out at each address that has an entry, in
    /// address order; a cell lists its registers in increasing order, and
    /// `-` marks an address without an entry in that list.
    pub fn to_text(&self) -> (r: String)
        ensures
            r@ == function_lifetime_text(*self),
    {
        let mut keys: Vec<IRAddress> = Vec::new();
        let mut i: usize = 0;
        while i < self.live_in.len()
            invariant
                i <= self.live_in@.len(),
                keys@ == self.live_in@.map_values(|e: (IRAddress, Vec<VirtualRegister>)| e.0).subrange(0, i as int),
            decreases self.live_in.len() - i,
        {
            keys.push(self.live_in[i].0);
            i += 1;
            proof {
                assert(keys@ =~= self.live_in@.map_values(|e: (IRAddress, Vec<VirtualRegister>)| e.0).subrange(0, i as int));
            }
        }
        let ghost in_keys = self.live_in@.map_values(|e: (IRAddress, Vec<VirtualRegister>)| e.0);
        proof {
            assert(keys@ =~= in_keys);
        }
        let mut j: usize = 0;
        while j < self.live_out.len()
            invariant
                j <= self.live_out@.len(),
                keys@ == in_keys + self.live_out@.map_values(|e: (IRAddress, Vec<VirtualRegister>)| e.0).subrange(0, j as int),
            decreases self.live_out.len() - j,
        {
            keys.push(self.live_out[j].0);
            j += 1;
            proof {
                assert(keys@ =~= in_keys + self.live_out@.map_values(|e: (IRAddress, Vec<VirtualRegister>)| e.0).subrange(0, j as int));
            }
        }
        proof {
            assert(self.live_out@.map_values(|e: (IRAddress, Vec<VirtualRegister>)| e.0).subrange(0, j as int)
                =~= self.live_out@.map_values(|e: (IRAddress, Vec<VirtualRegister>)| e.0));
        }
        let addrs = sorted_unique(&keys);
        let cin = column(&self.live_in, &addrs);
        let cout = column(&self.live_out, &addrs);
        let ghost cin_v = cin@.map_values(|c: String| c@);
        let ghost cout_v = cout@.map_values(|c: String| c@);
        proof {
            assert(cin_v =~= cells(self.live_in@, addrs@));
            assert(cout_v =~= cells(self.live_out@, addrs@));
        }
        let w_in = width_of("Live In", &cin);
        let w_out = width_of("Live Out", &cout);
        let mut table = String::new();
        push_rule(&mut table, w_in, w_out);
        push_str(&mut table, "Addr   | ");
        push_padded(&mut table, "Live In", w_in);
        push_str(&mut table, " | ");
        push_padded(&mut table, "Live Out", w_out);
        push_str(&mut table, "\n");
        push_rule(&mut table, w_in, w_out);
        let ghost head = table@;
        let mut k: usize = 0;
        while k < addrs.len()
            invariant
                k <= addrs@.len(),
                cin@.len() == addrs@.len(),
                cout@.len() == addrs@.len(),
                cin_v == cin@.map_values(|c: String| c@),
                cout_v == cout@.map_values(|c: String| c@),
                table@ == head + rows(addrs@, cin_v, cout_v, w_in as nat, w_out as nat, k as nat),
            decreases addrs.len() - k,
        {
            let ghost before = table@;
            let a = addrs[k].to_text();
            push_padded(&mut table, a.as_str(), 6);
            push_str(&mut table, " | ");
            push_padded(&mut table, cin[k].as_str(), w_in);
            push_str(&mut table, " | ");
            push_padded(&mut table, cout[k].as_str(), w_out);
            push_str(&mut table, "\n");
            proof {
                assert(cin_v[k as int] == cin@[k as int]@);
                assert(cout_v[k as int] == cout@[k as int]@);
                assert(table@ =~= head + rows(addrs@, cin_v, cout_v, w_in as nat, w_out as nat, (k + 1) as nat));
            }
            k += 1;
        }
        proof {
            assert(addrs@ == table_addresses(*self));
            assert(table@ =~= function_lifetime_text(*self));
        }
        table
    }
}

impl LifetimeTable {
    /// Each function's lifetimes, separated by blank lines.
    pub fn to_text(&self) -> (r: String)
        ensures
            r@ == lifetime_table_text(self.functions@),
    {
        let mut out = String::new();
        let mut i: usize = 0;
        proof {
            assert(self.functions@.subrange(0, 0) =~= Seq::<FunctionLifetime>::empty());
        }
        while i < self.functions.len()
            invariant
                i <= self.functions@.len(),
                out@ == lifetime_table_text(self.functions@.subrange(0, i as int)),
            decreases self.functions.len() - i,
        {
            let ghost sub = self.functions@.subrange(0, i + 1);
            proof {
                assert(sub.drop_last() =~= self.functions@.subrange(0, i as int));
                assert(sub.last() == self.functions@[i as int]);
            }
            if i > 0 {
                push_str(&mut out, "\n\n");
            }
            let t = self.functions[i].to_text();
            push_str(&mut out, t.as_str());
            proof {
                if i == 0 {
                    assert(sub.len() == 1);
                }
                assert(out@ =~= lifetime_table_text(sub));
            }
            i += 1;
        }
        proof {
            assert(self.functions@.subrange(0, i as int) =~= self.functions@);
        }
        out
    }
}

} // verus!
