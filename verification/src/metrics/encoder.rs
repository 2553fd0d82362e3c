//! The Prometheus text exposition format, version 0.0.4.
use vstd::prelude::*;

use crate::text;

verus! {

/// A value that a sample can have.
pub trait MetricValue {
    /// The text of the value.
    spec fn value_text(&self) -> Seq<char>;

    /// Appends the text of the value.
    fn write_value(&self, out: &mut String)
        ensures
            final(out)@ == old(out)@ + self.value_text(),
    ;
}

impl MetricValue for u64 {
    open spec fn value_text(&self) -> Seq<char> {
        text::decimal(*self as nat)
    }

    fn write_value(&self, out: &mut String) {
        text::push_decimal(out, *self);
    }
}

impl MetricValue for String {
    open spec fn value_text(&self) -> Seq<char> {
        self@
    }

    fn write_value(&self, out: &mut String) {
        out.push_str(self.as_str());
    }
}

/// The header lines of a metric family.
pub open spec fn family_text(name: Seq<char>, metric_type: Seq<char>, help: Seq<char>) -> Seq<
    char,
> {
    "# HELP "@ + name + " "@ + help + "\n"@ + "# TYPE "@ + name + " "@ + metric_type + "\n"@
}

/// The line of a sample without labels.
pub open spec fn sample_text(name: Seq<char>, value: Seq<char>) -> Seq<char> {
    name + " "@ + value + "\n"@
}

/// A label value with backslash, double quote and line feed escaped.
pub open spec fn escaped(value: Seq<char>) -> Seq<char>
    decreases value.len(),
{
    if value.len() == 0 {
        value
    } else {
        escaped(value.drop_last()) + escaped_char(value.last())
    }
}

/// A character of a label value, escaped where it has to be.
pub open spec fn escaped_char(c: char) -> Seq<char> {
    if c == '\\' {
        "\\\\"@
    } else if c == '"' {
        "\\\""@
    } else if c == '\n' {
        "\\n"@
    } else {
        seq![c]
    }
}

/// A label with its value in quotes.
pub open spec fn label_text(key: Seq<char>, value: Seq<char>) -> Seq<char> {
    key + "=\""@ + escaped(value) + "\""@
}

/// Labels, with a comma between two of them.
pub open spec fn labels_text(labels: Seq<(Seq<char>, Seq<char>)>) -> Seq<char>
    decreases labels.len(),
{
    if labels.len() == 0 {
        Seq::empty()
    } else if labels.len() == 1 {
        label_text(labels[0].0, labels[0].1)
    } else {
        labels_text(labels.drop_last()) + ","@ + label_text(labels.last().0, labels.last().1)
    }
}

/// The line of a sample with labels.
pub open spec fn labeled_text(
    name: Seq<char>,
    labels: Seq<(Seq<char>, Seq<char>)>,
    value: Seq<char>,
) -> Seq<char> {
    name + "{"@ + labels_text(labels) + "} "@ + value + "\n"@
}

/// The texts of labels.
pub open spec fn label_views(labels: Seq<(&str, &str)>) -> Seq<(Seq<char>, Seq<char>)> {
    Seq::new(labels.len(), |i: int| (labels[i].0@, labels[i].1@))
}

/// Writes metric families one after the other.
pub struct PromText {
    buf: String,
}

impl PromText {
    /// What was written.
    pub closed spec fn view(&self) -> Seq<char> {
        self.buf@
    }

    /// Nothing written yet.
    pub fn new() -> (p: PromText)
        ensures
            p@ == Seq::<char>::empty(),
    {
        PromText { buf: String::new() }
    }

    /// What was written.
    pub fn into_string(self) -> (s: String)
        ensures
            s@ == self@,
    {
        self.buf
    }

    /// Writes the header lines of a metric family.
    pub fn family(&mut self, name: &str, metric_type: &str, help: &str)
        ensures
            final(self)@ == old(self)@ + family_text(name@, metric_type@, help@),
    {
        self.buf.push_str("# HELP ");
        self.buf.push_str(name);
        self.buf.push_str(" ");
        self.buf.push_str(help);
        self.buf.push_str("\n");
        self.buf.push_str("# TYPE ");
        self.buf.push_str(name);
        self.buf.push_str(" ");
        self.buf.push_str(metric_type);
        self.buf.push_str("\n");
        assert(self@ =~= old(self)@ + family_text(name@, metric_type@, help@));
    }

    /// Writes a sample without labels.
    pub fn sample<V: MetricValue>(&mut self, name: &str, value: V)
        ensures
            final(self)@ == old(self)@ + sample_text(name@, value.value_text()),
    {
        self.buf.push_str(name);
        self.buf.push_str(" ");
        value.write_value(&mut self.buf);
        self.buf.push_str("\n");
        assert(self@ =~= old(self)@ + sample_text(name@, value.value_text()));
    }

    /// Writes a sample with labels.
    pub fn labeled<V: MetricValue>(&mut self, name: &str, labels: &[(&str, &str)], value: V)
        ensures
            final(self)@ == old(self)@ + labeled_text(
                name@,
                label_views(labels@),
                value.value_text(),
            ),
    {
        let ghost views = label_views(labels@);
        self.buf.push_str(name);
        self.buf.push_str("{");
        let ghost start = self@;
        let mut i: usize = 0;
        assert(views.take(0) =~= Seq::empty());
        assert(self@ =~= start + labels_text(views.take(0)));
        while i < labels.len()
            invariant
                i <= labels@.len(),
                views == label_views(labels@),
                self@ == start + labels_text(views.take(i as int)),
            decreases labels@.len() - i,
        {
            let ghost before = self@;
            assert(views.take(i + 1).drop_last() =~= views.take(i as int));
            if i > 0 {
                self.buf.push_str(",");
            }
            self.buf.push_str(labels[i].0);
            self.buf.push_str("=\"");
            escape_label_value(&mut self.buf, labels[i].1);
            self.buf.push_str("\"");
            proof {
                let last = label_text(views[i as int].0, views[i as int].1);
                assert(views.take(i + 1).last() == views[i as int]);
                if i > 0 {
                    assert(self@ =~= before + ","@ + last);
                    assert(self@ =~= start + labels_text(views.take(i + 1)));
                } else {
                    assert(self@ =~= before + last);
                    assert(labels_text(views.take(0)) =~= Seq::empty());
                    assert(self@ =~= start + labels_text(views.take(1)));
                }
            }
            i += 1;
        }
        assert(views.take(labels@.len() as int) =~= views);
        self.buf.push_str("} ");
        value.write_value(&mut self.buf);
        self.buf.push_str("\n");
        assert(self@ =~= old(self)@ + labeled_text(name@, views, value.value_text()));
    }
}

impl Default for PromText {
    fn default() -> (p: PromText)
        ensures
            p@ == Seq::<char>::empty(),
    {
        PromText::new()
    }
}

/// Appends a label value with backslash, double quote and line feed escaped.
pub fn escape_label_value(out: &mut String, value: &str)
    ensures
        final(out)@ == old(out)@ + escaped(value@),
{
    let chars = text::chars_of(value);
    let mut i: usize = 0;
    assert(value@.take(0) =~= Seq::empty());
    assert(out@ =~= old(out)@ + escaped(value@.take(0)));
    while i < chars.len()
        invariant
            i <= chars@.len(),
            chars@ == value@,
            out@ == old(out)@ + escaped(value@.take(i as int)),
        decreases chars@.len() - i,
    {
        let ghost before = out@;
        let c: char = chars[i];
        assert(value@.take(i + 1).drop_last() =~= value@.take(i as int));
        if c == '\\' {
            out.push_str("\\\\");
        } else if c == '"' {
            out.push_str("\\\"");
        } else if c == '\n' {
            out.push_str("\\n");
        } else {
            out.push(c);
        }
        assert(out@ =~= before + escaped_char(c));
        assert(out@ =~= old(out)@ + escaped(value@.take(i + 1)));
        i += 1;
    }
    assert(value@.take(value@.len() as int) =~= value@);
}

/// Whether the text could stand between quotes on one line: each backslash is followed by another
/// one, by a quote or by an `n`, and no other quote and no line feed stands in it.
pub open spec fn is_safe(t: Seq<char>) -> bool
    decreases t.len(),
{
    if t.len() == 0 {
        true
    } else if t[0] == '\\' {
        t.len() >= 2 && (t[1] == '\\' || t[1] == '"' || t[1] == 'n') && is_safe(t.skip(2))
    } else {
        t[0] != '"' && t[0] != '\n' && is_safe(t.skip(1))
    }
}

/// What an escaped text stands for: a backslash and an `n` for a line feed, and a backslash and
/// another character for that character.
pub open spec fn unescaped(t: Seq<char>) -> Seq<char>
    decreases t.len(),
{
    if t.len() == 0 {
        Seq::empty()
    } else if t[0] == '\\' && t.len() >= 2 {
        seq![
            if t[1] == 'n' {
                '\n'
            } else {
                t[1]
            },
        ] + unescaped(t.skip(2))
    } else {
        seq![t[0]] + unescaped(t.skip(1))
    }
}

/// A value is escaped character by character from the front, too.
proof fn lemma_escaped_front(value: Seq<char>)
    requires
        value.len() > 0,
    ensures
        escaped(value) == escaped_char(value[0]) + escaped(value.skip(1)),
    decreases value.len(),
{
    if value.len() == 1 {
        assert(value.drop_last() =~= Seq::<char>::empty());
        assert(value.skip(1) =~= Seq::<char>::empty());
        assert(escaped(value) =~= escaped_char(value[0]) + escaped(value.skip(1)));
    } else {
        let init = value.drop_last();
        lemma_escaped_front(init);
        assert(init.skip(1) =~= value.skip(1).drop_last());
        assert(escaped(value) =~= escaped_char(value[0]) + (escaped(init.skip(1)) + escaped_char(
            value.last(),
        )));
    }
}

/// An escaped label value has no bare quote and no line feed, and reads back as the value.
pub proof fn law_escaped_value_reads_back(value: Seq<char>)
    ensures
        is_safe(escaped(value)),
        unescaped(escaped(value)) == value,
    decreases value.len(),
{
    if value.len() > 0 {
        let c = value[0];
        let rest = escaped(value.skip(1));
        let t = escaped(value);
        lemma_escaped_front(value);
        law_escaped_value_reads_back(value.skip(1));
        reveal_strlit("\\\\");
        reveal_strlit("\\\"");
        reveal_strlit("\\n");
        if c == '\\' || c == '"' || c == '\n' {
            assert(t.skip(2) =~= rest);
        } else {
            assert(t.skip(1) =~= rest);
        }
        assert(value =~= seq![c] + value.skip(1));
    }
}

/// Different label values are escaped differently.
pub proof fn law_escaped_values_differ(a: Seq<char>, b: Seq<char>)
    requires
        a != b,
    ensures
        escaped(a) != escaped(b),
{
    law_escaped_value_reads_back(a);
    law_escaped_value_reads_back(b);
}

} // verus!
