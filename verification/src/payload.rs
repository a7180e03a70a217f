use crate::config::GatewayConfig;
use crate::decimal::Decimal;
use crate::digits::dec_str;
use crate::digits::digit_char;
use crate::digits::push_char;
use crate::digits::u64_to_string;
use crate::timestamp::Timestamp;
use crate::urls::notification_url;
use crate::urls::spec_notification_url;
use vstd::prelude::*;

verus! {

/// The character for a single hexadecimal digit, lower case.
pub open spec fn hex_char(d: nat) -> char {
    if d < 10 {
        digit_char(d)
    } else if d == 10 {
        'a'
    } else if d == 11 {
        'b'
    } else if d == 12 {
        'c'
    } else if d == 13 {
        'd'
    } else if d == 14 {
        'e'
    } else {
        'f'
    }
}

/// How one character is written inside a JSON string: quote and backslash get
/// a backslash escape, control characters a `\u00XX` escape, everything else
/// stands as itself.
pub open spec fn esc_char(c: char) -> Seq<char> {
    if c == '"' {
        seq!['\\', '"']
    } else if c == '\\' {
        seq!['\\', '\\']
    } else if (c as int) < 32 {
        seq!['\\', 'u', '0', '0', hex_char((c as nat) / 16), hex_char((c as nat) % 16)]
    } else {
        seq![c]
    }
}

/// The body of a JSON string: every character escaped as JSON asks.
pub open spec fn json_escape(s: Seq<char>) -> Seq<char>
    decreases s.len(),
{
    if s.len() == 0 {
        Seq::empty()
    } else {
        esc_char(s[0]) + json_escape(s.skip(1))
    }
}

pub proof fn lemma_json_escape_concat(a: Seq<char>, b: Seq<char>)
    ensures
        json_escape(a + b) == json_escape(a) + json_escape(b),
    decreases a.len(),
{
    if a.len() == 0 {
        assert(a + b =~= b);
        assert(json_escape(a) + json_escape(b) =~= json_escape(b));
    } else {
        lemma_json_escape_concat(a.skip(1), b);
        assert((a + b).skip(1) =~= a.skip(1) + b);
        assert((a + b)[0] == a[0]);
        assert(esc_char(a[0]) + (json_escape(a.skip(1)) + json_escape(b)) =~= (esc_char(a[0])
            + json_escape(a.skip(1))) + json_escape(b));
    }
}

fn hex_to_str(d: u32) -> (r: &'static str)
    requires
        d < 16,
    ensures
        r@ == seq![hex_char(d as nat)],
{
    let r: &'static str = match d {
        0 => "0",
        1 => "1",
        2 => "2",
        3 => "3",
        4 => "4",
        5 => "5",
        6 => "6",
        7 => "7",
        8 => "8",
        9 => "9",
        10 => "a",
        11 => "b",
        12 => "c",
        13 => "d",
        14 => "e",
        _ => "f",
    };
    proof {
        reveal_strlit("0");
        reveal_strlit("1");
        reveal_strlit("2");
        reveal_strlit("3");
        reveal_strlit("4");
        reveal_strlit("5");
        reveal_strlit("6");
        reveal_strlit("7");
        reveal_strlit("8");
        reveal_strlit("9");
        reveal_strlit("a");
        reveal_strlit("b");
        reveal_strlit("c");
        reveal_strlit("d");
        reveal_strlit("e");
        reveal_strlit("f");
        assert(r@ =~= seq![hex_char(d as nat)]);
    }
    r
}

/// Appends the JSON-escaped form of `s` to `out`.
fn escape_into(out: &mut String, s: &str)
    ensures
        final(out)@ == old(out)@ + json_escape(s@),
{
    let n = s.unicode_len();
    let mut i: usize = 0;
    while i < n
        invariant
            n == s@.len(),
            0 <= i <= n,
            out@ == old(out)@ + json_escape(s@.subrange(0, i as int)),
        decreases n - i,
    {
        let c = s.get_char(i);
        proof {
            assert(s@.subrange(0, i + 1) =~= s@.subrange(0, i as int) + seq![c]);
            lemma_json_escape_concat(s@.subrange(0, i as int), seq![c]);
            assert(seq![c].skip(1) =~= Seq::<char>::empty());
            assert(seq![c][0] == c);
            assert(json_escape(Seq::<char>::empty()) == Seq::<char>::empty());
            assert(json_escape(seq![c]) == esc_char(c) + json_escape(Seq::<char>::empty()));
            assert(esc_char(c) + Seq::<char>::empty() =~= esc_char(c));
        }
        if c == '"' {
            out.append("\\\"");
            proof {
                reveal_strlit("\\\"");
                assert("\\\""@ =~= esc_char(c));
            }
        } else if c == '\\' {
            out.append("\\\\");
            proof {
                reveal_strlit("\\\\");
                assert("\\\\"@ =~= esc_char(c));
            }
        } else if (c as u32) < 32 {
            let cv = c as u32;
            out.append("\\u00");
            out.append(hex_to_str(cv / 16));
            out.append(hex_to_str(cv % 16));
            proof {
                reveal_strlit("\\u00");
                assert("\\u00"@ + seq![hex_char((cv / 16) as nat)] + seq![
                    hex_char((cv % 16) as nat),
                ] =~= esc_char(c));
            }
        } else {
            push_char(out, c);
            proof {
                assert(seq![c] =~= esc_char(c));
            }
        }
        proof {
            assert(out@ =~= old(out)@ + json_escape(s@.subrange(0, i + 1)));
        }
        i = i + 1;
    }
    proof {
        assert(s@.subrange(0, n as int) =~= s@);
    }
}

/// The cash-out sub-object of the outbound payload: the amount only.
#[derive(Debug)]
pub struct CashOut {
    pub amount: Decimal,
}

/// One line item of the outbound payload. The create operation builds exactly
/// one synthetic item whose full price is the order amount.
#[derive(Debug)]
pub struct Item {
    pub sku_number: String,
    pub category: String,
    pub title: String,
    pub description: String,
    pub unit_price: Decimal,
    pub quantity: i8,
    pub unit_measure: String,
    pub total_amount: Decimal,
}

/// The outbound create payload: external reference, derived notification
/// URL, title and description, derived expiration timestamp, derived total
/// amount, the line items, and the cash-out sub-object.
#[derive(Debug)]
pub struct Root {
    pub external_reference: String,
    pub notification_url: String,
    pub title: String,
    pub description: String,
    pub expiration_date: String,
    pub total_amount: Decimal,
    pub items: Vec<Item>,
    pub cash_out: CashOut,
}

impl Item {
    pub open spec fn wf(self) -> bool {
        &&& self.unit_price.wf()
        &&& self.total_amount.wf()
        &&& self.quantity >= 0
    }
}

/// The data model's equality on line items: string fields by their
/// characters, amounts by mantissa and scale.
pub open spec fn item_eqv(a: Item, b: Item) -> bool {
    &&& a.sku_number@ == b.sku_number@
    &&& a.category@ == b.category@
    &&& a.title@ == b.title@
    &&& a.description@ == b.description@
    &&& a.unit_price == b.unit_price
    &&& a.quantity == b.quantity
    &&& a.unit_measure@ == b.unit_measure@
    &&& a.total_amount == b.total_amount
}

/// The data model's equality on payloads.
pub open spec fn root_eqv(a: Root, b: Root) -> bool {
    &&& a.external_reference@ == b.external_reference@
    &&& a.notification_url@ == b.notification_url@
    &&& a.title@ == b.title@
    &&& a.description@ == b.description@
    &&& a.expiration_date@ == b.expiration_date@
    &&& a.total_amount == b.total_amount
    &&& a.items@.len() == b.items@.len()
    &&& (forall|i: int| 0 <= i < a.items@.len() ==> item_eqv(a.items@[i], b.items@[i]))
    &&& a.cash_out.amount == b.cash_out.amount
}

impl PartialEq for CashOut {
    fn eq(&self, other: &CashOut) -> (r: bool) {
        self.amount == other.amount
    }
}

impl vstd::std_specs::cmp::PartialEqSpecImpl for CashOut {
    open spec fn obeys_eq_spec() -> bool {
        true
    }

    open spec fn eq_spec(&self, other: &CashOut) -> bool {
        self.amount == other.amount
    }
}

impl PartialEq for Item {
    fn eq(&self, other: &Item) -> (r: bool) {
        self.sku_number == other.sku_number && self.category == other.category && self.title
            == other.title && self.description == other.description && self.unit_price
            == other.unit_price && self.quantity == other.quantity && self.unit_measure
            == other.unit_measure && self.total_amount == other.total_amount
    }
}

impl vstd::std_specs::cmp::PartialEqSpecImpl for Item {
    open spec fn obeys_eq_spec() -> bool {
        true
    }

    open spec fn eq_spec(&self, other: &Item) -> bool {
        item_eqv(*self, *other)
    }
}

impl PartialEq for Root {
    fn eq(&self, other: &Root) -> (r: bool) {
        if !(self.external_reference == other.external_reference && self.notification_url
            == other.notification_url && self.title == other.title && self.description
            == other.description && self.expiration_date == other.expiration_date
            && self.total_amount == other.total_amount && self.cash_out.amount
            == other.cash_out.amount && self.items.len() == other.items.len()) {
            return false;
        }
        let mut i: usize = 0;
        while i < self.items.len()
            invariant
                0 <= i <= self.items@.len(),
                self.items@.len() == other.items@.len(),
                forall|j: int| 0 <= j < i ==> item_eqv(self.items@[j], other.items@[j]),
            decreases self.items@.len() - i,
        {
            if !(self.items[i] == other.items[i]) {
                return false;
            }
            i = i + 1;
        }
        true
    }
}

impl vstd::std_specs::cmp::PartialEqSpecImpl for Root {
    open spec fn obeys_eq_spec() -> bool {
        true
    }

    open spec fn eq_spec(&self, other: &Root) -> bool {
        root_eqv(*self, *other)
    }
}

impl Root {
    pub open spec fn wf(self) -> bool {
        &&& self.total_amount.wf()
        &&& self.cash_out.amount.wf()
        &&& forall|i: int| 0 <= i < self.items@.len() ==> self.items@[i].wf()
    }
}

/// The serialized form of one line item.
pub open spec fn spec_item_json(it: Item) -> Seq<char> {
    "{\"sku_number\":\""@ + json_escape(it.sku_number@) + "\",\"category\":\""@ + json_escape(
        it.category@,
    ) + "\",\"title\":\""@ + json_escape(it.title@) + "\",\"description\":\""@ + json_escape(
        it.description@,
    ) + "\",\"unit_price\":"@ + it.unit_price.spec_format() + ",\"quantity\":"@ + dec_str(
        it.quantity as nat,
    ) + ",\"unit_measure\":\""@ + json_escape(it.unit_measure@) + "\",\"total_amount\":"@
        + it.total_amount.spec_format() + "}"@
}

/// The serialized items, comma-separated.
pub open spec fn spec_items_json(items: Seq<Item>) -> Seq<char>
    decreases items.len(),
{
    if items.len() == 0 {
        Seq::empty()
    } else if items.len() == 1 {
        spec_item_json(items[0])
    } else {
        spec_items_json(items.drop_last()) + ","@ + spec_item_json(items.last())
    }
}

/// The serialized payload, field for field in the order the gateway expects.
pub open spec fn spec_root_json(r: Root) -> Seq<char> {
    "{\"external_reference\":\""@ + json_escape(r.external_reference@)
        + "\",\"notification_url\":\""@ + json_escape(r.notification_url@) + "\",\"title\":\""@
        + json_escape(r.title@) + "\",\"description\":\""@ + json_escape(r.description@)
        + "\",\"expiration_date\":\""@ + json_escape(r.expiration_date@) + "\",\"total_amount\":"@
        + r.total_amount.spec_format() + ",\"items\":["@ + spec_items_json(r.items@)
        + "],\"cash_out\":{\"amount\":"@ + r.cash_out.amount.spec_format() + "}}"@
}

fn encode_item_into(out: &mut String, it: &Item)
    requires
        it.wf(),
    ensures
        final(out)@ == old(out)@ + spec_item_json(*it),
{
    out.append("{\"sku_number\":\"");
    escape_into(out, it.sku_number.as_str());
    out.append("\",\"category\":\"");
    escape_into(out, it.category.as_str());
    out.append("\",\"title\":\"");
    escape_into(out, it.title.as_str());
    out.append("\",\"description\":\"");
    escape_into(out, it.description.as_str());
    out.append("\",\"unit_price\":");
    let part = it.unit_price.format();
    out.append(part.as_str());
    out.append(",\"quantity\":");
    let part = u64_to_string(it.quantity as u64);
    out.append(part.as_str());
    out.append(",\"unit_measure\":\"");
    escape_into(out, it.unit_measure.as_str());
    out.append("\",\"total_amount\":");
    let part = it.total_amount.format();
    out.append(part.as_str());
    out.append("}");
    proof {
        assert(out@ =~= old(out)@ + spec_item_json(*it));
    }
}

/// Serializes the payload. The result is the exact byte sequence
/// `spec_root_json` describes, so two payloads built from the same inputs
/// serialize identically.
pub fn encode_root(r: &Root) -> (s: String)
    requires
        r.wf(),
    ensures
        s@ == spec_root_json(*r),
{
    let mut out = String::new();
    out.append("{\"external_reference\":\"");
    escape_into(&mut out, r.external_reference.as_str());
    out.append("\",\"notification_url\":\"");
    escape_into(&mut out, r.notification_url.as_str());
    out.append("\",\"title\":\"");
    escape_into(&mut out, r.title.as_str());
    out.append("\",\"description\":\"");
    escape_into(&mut out, r.description.as_str());
    out.append("\",\"expiration_date\":\"");
    escape_into(&mut out, r.expiration_date.as_str());
    out.append("\",\"total_amount\":");
    let part = r.total_amount.format();
    out.append(part.as_str());
    out.append(",\"items\":[");
    let ghost before_items = out@;
    let mut i: usize = 0;
    while i < r.items.len()
        invariant
            r.wf(),
            0 <= i <= r.items@.len(),
            out@ == before_items + spec_items_json(r.items@.subrange(0, i as int)),
        decreases r.items@.len() - i,
    {
        if i > 0 {
            out.append(",");
        }
        encode_item_into(&mut out, &r.items[i]);
        proof {
            let pre = r.items@.subrange(0, i as int);
            let cur = r.items@.subrange(0, i + 1);
            assert(cur.drop_last() =~= pre);
            assert(cur.last() == r.items@[i as int]);
            if i == 0 {
                assert(cur.len() == 1);
                assert(cur[0] == r.items@[0]);
                assert(out@ =~= before_items + spec_items_json(cur));
            } else {
                assert(out@ =~= before_items + spec_items_json(cur));
            }
        }
        i = i + 1;
    }
    proof {
        assert(r.items@.subrange(0, r.items@.len() as int) =~= r.items@);
    }
    out.append("],\"cash_out\":{\"amount\":");
    let part = r.cash_out.amount.format();
    out.append(part.as_str());
    out.append("}}");
    proof {
        assert(out@ =~= spec_root_json(*r));
    }
    out
}

/// Builds the outbound payload for the create operation: the synthetic
/// single line item, the derived notification URL, the expiration one hour
/// past `now`, and the derived total `ta + ca`.
pub fn build_root(cfg: &GatewayConfig, external_reference: &str, ta: Decimal, ca: Decimal, now: Timestamp) -> (r: Root)
    requires
        ta.wf(),
        ca.wf(),
        crate::decimal::spec_add(ta, ca) is Some,
        now.wf(),
        now.year <= 9998,
    ensures
        r.external_reference@ == external_reference@,
        r.notification_url@ == spec_notification_url(*cfg, external_reference@),
        r.title@ == "Orden Crear"@,
        r.description@ == "Orden Crear"@,
        r.expiration_date@ == now.spec_plus_one_hour().spec_format(),
        Some(r.total_amount) == crate::decimal::spec_add(ta, ca),
        r.items@.len() == 1,
        r.items@[0].sku_number@ == "SKU123456"@,
        r.items@[0].category@ == "FOOD"@,
        r.items@[0].title@ == "Item1"@,
        r.items@[0].description@ == "Item1 Mercado Pago"@,
        r.items@[0].unit_price == ta,
        r.items@[0].quantity == 1,
        r.items@[0].unit_measure@ == "unit"@,
        r.items@[0].total_amount == ta,
        r.cash_out.amount == ca,
        r.wf(),
{
    let total = match ta.add_exact(ca) {
        Some(t) => t,
        None => {
            proof {
                assert(false);
            }
            ta
        },
    };
    let item = Item {
        sku_number: String::from_str("SKU123456"),
        category: String::from_str("FOOD"),
        title: String::from_str("Item1"),
        description: String::from_str("Item1 Mercado Pago"),
        unit_price: ta,
        quantity: 1,
        unit_measure: String::from_str("unit"),
        total_amount: ta,
    };
    let mut items: Vec<Item> = Vec::new();
    items.push(item);
    let exp = now.plus_one_hour().format();
    Root {
        external_reference: String::from_str(external_reference),
        notification_url: notification_url(cfg, external_reference),
        title: String::from_str("Orden Crear"),
        description: String::from_str("Orden Crear"),
        expiration_date: exp,
        total_amount: total,
        items,
        cash_out: CashOut { amount: ca },
    }
}

} // verus!
