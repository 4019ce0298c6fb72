//! Code tables: labels in order of first appearance, each with a short code
//! made of a one-letter prefix and its ordinal padded to two digits.
use vstd::prelude::*;
use crate::text::{
    decimal_string, decimal_text, find_text, first_index, left_pad_zeros,
    lemma_first_index_bounds, lemma_first_index_distinct, lemma_padded_decimal_injective, texts,
    zero_pad,
};

verus! {

/// The code of the label with the given ordinal (counted from one).
pub open spec fn code_text(prefix: Seq<char>, ordinal: nat) -> Seq<char> {
    prefix + zero_pad(decimal_text(ordinal), 2)
}

/// Whether no two elements of `s` are equal.
pub open spec fn distinct(s: Seq<Seq<char>>) -> bool {
    forall|a: int, b: int| 0 <= a < b < s.len() ==> s[a] != s[b]
}

/// The labels once `label` has been seen: unchanged when it is known,
/// with `label` added at the end otherwise.
pub open spec fn table_insert(labels: Seq<Seq<char>>, label: Seq<char>) -> Seq<Seq<char>> {
    if first_index(labels, label) >= 0 {
        labels
    } else {
        labels.push(label)
    }
}

/// The ordinal of a label: its position among the labels, counted from one.
pub open spec fn ordinal(labels: Seq<Seq<char>>, label: Seq<char>) -> nat {
    (first_index(labels, label) + 1) as nat
}

/// The code that a label gets from a table holding `labels`.
pub open spec fn code_for(prefix: Seq<char>, labels: Seq<Seq<char>>, label: Seq<char>) -> Seq<char> {
    code_text(prefix, ordinal(table_insert(labels, label), label))
}

/// A table of labels of one taxonomy.
pub struct CodeTable {
    pub prefix: String,
    pub labels: Vec<String>,
}

impl CodeTable {
    /// The labels, in order of first appearance.
    pub open spec fn view(&self) -> Seq<Seq<char>> {
        texts(self.labels@)
    }

    /// A table never holds a label twice.
    pub open spec fn wf(&self) -> bool {
        distinct(self@)
    }

    /// An empty table whose codes start with `prefix`.
    pub fn new(prefix: &str) -> (t: CodeTable)
        ensures
            t.wf(),
            t@ == Seq::<Seq<char>>::empty(),
            t.prefix@ == prefix@,
    {
        let t = CodeTable { prefix: String::from_str(prefix), labels: Vec::new() };
        assert(t@ =~= Seq::<Seq<char>>::empty());
        t
    }

    /// The code of `label`, which is added to the table when it is new.
    pub fn encode(&mut self, label: &String) -> (code: String)
        requires
            old(self).wf(),
        ensures
            final(self).wf(),
            final(self).prefix == old(self).prefix,
            final(self)@ == table_insert(old(self)@, label@),
            code@ == code_for(old(self).prefix@, old(self)@, label@),
    {
        let ghost before = self@;
        proof {
            lemma_first_index_bounds(before, label@);
        }
        let ord: u128;
        match find_text(&self.labels, label) {
            Some(i) => {
                ord = i as u128 + 1;
            },
            None => {
                ord = self.labels.len() as u128 + 1;
                self.labels.push(label.clone());
                assert(self@ =~= before.push(label@));
                proof {
                    lemma_first_index_distinct(self@, before.len() as int);
                }
            },
        }
        let digits = decimal_string(ord);
        let padded = left_pad_zeros(digits.as_str(), 2);
        let mut code = self.prefix.clone();
        code.append(padded.as_str());
        code
    }
}

/// Distinct labels of a table get distinct codes.
pub proof fn lemma_codes_injective(prefix: Seq<char>, labels: Seq<Seq<char>>, a: Seq<char>, b: Seq<char>)
    requires
        distinct(labels),
        first_index(labels, a) >= 0,
        first_index(labels, b) >= 0,
        a != b,
    ensures
        code_for(prefix, labels, a) != code_for(prefix, labels, b),
{
    lemma_first_index_bounds(labels, a);
    lemma_first_index_bounds(labels, b);
    let x = zero_pad(decimal_text(ordinal(labels, a)), 2);
    let y = zero_pad(decimal_text(ordinal(labels, b)), 2);
    if code_for(prefix, labels, a) == code_for(prefix, labels, b) {
        assert(x =~= (prefix + x).subrange(prefix.len() as int, (prefix + x).len() as int));
        assert(y =~= (prefix + y).subrange(prefix.len() as int, (prefix + y).len() as int));
        lemma_padded_decimal_injective(ordinal(labels, a), ordinal(labels, b), 2);
    }
}

/// The composite code of a category: the three codes one after the other.
pub fn composite(type_code: &String, subtype_code: &String, modality_code: &String) -> (r: String)
    ensures
        r@ == type_code@ + subtype_code@ + modality_code@,
{
    let mut r = type_code.clone();
    r.append(subtype_code.as_str());
    r.append(modality_code.as_str());
    r
}

} // verus!
