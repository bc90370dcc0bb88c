//! The syntax tree of a Mindbend program.

use vstd::prelude::*;
use vstd::string::*;
use crate::decimal::{decimal, decimal_string};

verus! {

#[derive(Debug, PartialEq, Eq, Clone, Copy, Structural)]
pub enum Region {
    Cells,
    Layers,
}

#[derive(Debug, PartialEq, Eq, Clone, Copy, Structural)]
pub enum PrimitiveValue {
    One,
    Two,
    Three,
    Four,
    Five,
    Six,
    Seven,
    Eight,
    Nine,
    Zero,
    Input,
    Output,
    Addition,
    Subtraction,
}

#[derive(Debug, PartialEq, Eq, Clone, Copy, Structural)]
pub enum ExprType {
    Cell,
    Leach,
    Organism,
    Label,
    Jump,
    Primitive,
    Region,
    Drill,
    Dummy,
}

/// A node of the syntax tree: what kind it is, and a text that renders it.
pub trait Expression {
    spec fn kind(&self) -> ExprType;

    spec fn repr(&self) -> Seq<char>;

    fn get_type(&self) -> (r: ExprType)
        ensures
            r == self.kind(),
    ;

    fn get_repr(&self) -> (r: String)
        ensures
            r@ == self.repr(),
    ;
}

/// A node that can stand on the left of a leach: a cell or a primitive.
pub trait PassiveExpression: Expression {
}

#[derive(Debug, PartialEq, Clone, Copy)]
pub struct CellExpression {
    pub ident: u8,
}

#[derive(Debug, PartialEq, Clone, Copy)]
pub struct PrimitiveExpression {
    pub pval: PrimitiveValue,
}

#[derive(Debug, PartialEq, Clone, Copy)]
pub enum Passive {
    Cell(CellExpression),
    Primitive(PrimitiveExpression),
}

#[derive(Debug, PartialEq)]
pub struct LeachExpression {
    pub left: Passive,
    pub right: Option<Box<LeachExpression>>,
    pub is_chain: bool,
    pub region_change: Option<Vec<RegionExpression>>,
}

#[derive(Debug, PartialEq, Clone, Copy)]
pub struct RegionExpression {
    pub to: Region,
}

#[derive(Debug, PartialEq, Clone, Copy)]
pub struct DrillExpression {}

#[derive(Debug, PartialEq)]
pub struct LabelExpression {
    pub label: String,
}

#[derive(Debug, PartialEq)]
pub struct JumpExpression {
    pub to: String,
    pub conditional: bool,
}

#[derive(Debug, PartialEq, Clone, Copy)]
pub struct DummyExpression {}

/// The payload of one link of the organism list.
#[derive(Debug, PartialEq)]
pub enum AnyExpression {
    Cell(CellExpression),
    Primitive(PrimitiveExpression),
    Leach(LeachExpression),
    Region(RegionExpression),
    Drill(DrillExpression),
    Label(LabelExpression),
    Jump(JumpExpression),
    Dummy(DummyExpression),
}

/// A program: a right-leaning list of expressions.
#[derive(Debug, PartialEq)]
pub struct OrganismExpression {
    pub child: AnyExpression,
    pub right: Option<Box<OrganismExpression>>,
}

impl CellExpression {
    /// The cell written by the one character of `c_ident`: `0`-`9` are cells
    /// 0 to 9 and `A`-`E` are cells 10 to 14.
    pub fn new(c_ident: String) -> (r: CellExpression)
        requires
            c_ident@.len() == 1,
            is_cell_char(c_ident@[0]),
        ensures
            r.ident == cell_number(c_ident@[0]),
    {
        let c = c_ident.as_str().get_char(0);
        CellExpression { ident: cell_value(c) }
    }

    pub fn ident(&self) -> (r: u8)
        ensures
            r == self.ident,
    {
        self.ident
    }
}

pub open spec fn is_cell_char(c: char) -> bool {
    ('0' <= c && c <= '9') || ('A' <= c && c <= 'E')
}

/// The number of the cell that `c` names.
pub open spec fn cell_number(c: char) -> u8 {
    if '0' <= c && c <= '9' {
        (c as u32 - '0' as u32) as u8
    } else {
        (c as u32 - 'A' as u32 + 10) as u8
    }
}

pub fn cell_value(c: char) -> (r: u8)
    requires
        is_cell_char(c),
    ensures
        r == cell_number(c),
        r < 15,
{
    if '0' <= c && c <= '9' {
        (c as u32 - '0' as u32) as u8
    } else {
        (c as u32 - 'A' as u32 + 10) as u8
    }
}

impl PrimitiveExpression {
    pub fn new(pval: PrimitiveValue) -> (r: PrimitiveExpression)
        ensures
            r.pval == pval,
    {
        PrimitiveExpression { pval }
    }

    pub fn pval(&self) -> (r: PrimitiveValue)
        ensures
            r == self.pval,
    {
        self.pval
    }
}

impl LeachExpression {
    pub fn new(
        left: Passive,
        right: Option<Box<LeachExpression>>,
        is_chain: bool,
        region_change: Option<Vec<RegionExpression>>,
    ) -> (r: LeachExpression)
        ensures
            r == (LeachExpression { left, right, is_chain, region_change }),
    {
        LeachExpression { left, right, is_chain, region_change }
    }

    pub fn left(&self) -> (r: &Passive)
        ensures
            *r == self.left,
    {
        &self.left
    }

    pub fn right(&self) -> (r: &Option<Box<LeachExpression>>)
        ensures
            *r == self.right,
    {
        &self.right
    }
}

impl RegionExpression {
    pub fn new(to: Region) -> (r: RegionExpression)
        ensures
            r.to == to,
    {
        RegionExpression { to }
    }

    pub fn to(&self) -> (r: Region)
        ensures
            r == self.to,
    {
        self.to
    }
}

impl DrillExpression {
    pub fn new() -> (r: DrillExpression) {
        DrillExpression {  }
    }
}

impl LabelExpression {
    pub fn new(label: String) -> (r: LabelExpression)
        ensures
            r.label == label,
    {
        LabelExpression { label }
    }

    pub fn label(&self) -> (r: String)
        ensures
            r@ == self.label@,
    {
        self.label.clone()
    }
}

impl JumpExpression {
    pub fn new(label: String) -> (r: JumpExpression)
        ensures
            r.to == label,
            !r.conditional,
    {
        JumpExpression { to: label, conditional: false }
    }

    pub fn new_conditional(label: String) -> (r: JumpExpression)
        ensures
            r.to == label,
            r.conditional,
    {
        JumpExpression { to: label, conditional: true }
    }

    pub fn to(&self) -> (r: String)
        ensures
            r@ == self.to@,
    {
        self.to.clone()
    }

    pub fn conditional(&self) -> (r: bool)
        ensures
            r == self.conditional,
    {
        self.conditional
    }
}

impl DummyExpression {
    pub fn new() -> (r: DummyExpression) {
        DummyExpression {  }
    }
}

impl OrganismExpression {
    pub fn new(child: AnyExpression, right: Option<Box<OrganismExpression>>) -> (r: OrganismExpression)
        ensures
            r == (OrganismExpression { child, right }),
    {
        OrganismExpression { child, right }
    }
}

/// The expressions of a program, head first.
pub open spec fn flatten(o: OrganismExpression) -> Seq<AnyExpression>
    decreases o,
{
    match o.right {
        Some(next) => seq![o.child] + flatten(*next),
        None => seq![o.child],
    }
}

/// The cells of a chain, function first: the left cell of each link.
pub open spec fn chain_cells(l: LeachExpression) -> Seq<u8>
    decreases l,
{
    let head: Seq<u8> = match l.left {
        Passive::Cell(c) => seq![c.ident],
        Passive::Primitive(_) => seq![],
    };
    match l.right {
        Some(r) => head + chain_cells(*r),
        None => head,
    }
}

pub open spec fn primitive_name(p: PrimitiveValue) -> Seq<char> {
    match p {
        PrimitiveValue::One => "One"@,
        PrimitiveValue::Two => "Two"@,
        PrimitiveValue::Three => "Three"@,
        PrimitiveValue::Four => "Four"@,
        PrimitiveValue::Five => "Five"@,
        PrimitiveValue::Six => "Six"@,
        PrimitiveValue::Seven => "Seven"@,
        PrimitiveValue::Eight => "Eight"@,
        PrimitiveValue::Nine => "Nine"@,
        PrimitiveValue::Zero => "Zero"@,
        PrimitiveValue::Input => "Input"@,
        PrimitiveValue::Output => "Output"@,
        PrimitiveValue::Addition => "Addition"@,
        PrimitiveValue::Subtraction => "Subtraction"@,
    }
}

fn primitive_name_str(p: PrimitiveValue) -> (r: &'static str)
    ensures
        r@ == primitive_name(p),
{
    match p {
        PrimitiveValue::One => "One",
        PrimitiveValue::Two => "Two",
        PrimitiveValue::Three => "Three",
        PrimitiveValue::Four => "Four",
        PrimitiveValue::Five => "Five",
        PrimitiveValue::Six => "Six",
        PrimitiveValue::Seven => "Seven",
        PrimitiveValue::Eight => "Eight",
        PrimitiveValue::Nine => "Nine",
        PrimitiveValue::Zero => "Zero",
        PrimitiveValue::Input => "Input",
        PrimitiveValue::Output => "Output",
        PrimitiveValue::Addition => "Addition",
        PrimitiveValue::Subtraction => "Subtraction",
    }
}

pub open spec fn bool_text(b: bool) -> Seq<char> {
    if b {
        "true"@
    } else {
        "false"@
    }
}

/// The text of a cell number.
pub open spec fn decimal_text(c: u8) -> Seq<char> {
    decimal(c as nat)
}

pub open spec fn passive_repr(p: Passive) -> Seq<char> {
    match p {
        Passive::Cell(c) => decimal_text(c.ident),
        Passive::Primitive(q) => primitive_name(q.pval),
    }
}

pub open spec fn leach_repr(l: LeachExpression) -> Seq<char>
    decreases l,
{
    let right = match l.right {
        Some(r) => leach_repr(*r),
        None => "None"@,
    };
    "(left: "@ + passive_repr(l.left) + ", right: "@ + right + ", is_chain: "@ + bool_text(l.is_chain)
        + ")"@
}

pub open spec fn any_repr(e: AnyExpression) -> Seq<char> {
    match e {
        AnyExpression::Cell(c) => decimal(c.ident as nat),
        AnyExpression::Primitive(p) => primitive_name(p.pval),
        AnyExpression::Leach(l) => leach_repr(l),
        AnyExpression::Region(r) => match r.to {
            Region::Cells => "(to: Cells)"@,
            Region::Layers => "(to: Layers)"@,
        },
        AnyExpression::Drill(_) => "Drill"@,
        AnyExpression::Label(l) => "(label: \""@ + l.label@ + "\")"@,
        AnyExpression::Jump(j) => "(jump: to:\""@ + j.to@ + "\")"@,
        AnyExpression::Dummy(_) => "Dummy Expression"@,
    }
}

pub open spec fn any_kind(e: AnyExpression) -> ExprType {
    match e {
        AnyExpression::Cell(_) => ExprType::Cell,
        AnyExpression::Primitive(_) => ExprType::Primitive,
        AnyExpression::Leach(_) => ExprType::Leach,
        AnyExpression::Region(_) => ExprType::Region,
        AnyExpression::Drill(_) => ExprType::Drill,
        AnyExpression::Label(_) => ExprType::Label,
        AnyExpression::Jump(_) => ExprType::Jump,
        AnyExpression::Dummy(_) => ExprType::Dummy,
    }
}

pub open spec fn organism_repr(o: OrganismExpression) -> Seq<char>
    decreases o,
{
    let right = match o.right {
        Some(r) => organism_repr(*r),
        None => "None"@,
    };
    "(child: ("@ + any_repr(o.child) + "), right: ("@ + right + "))"@
}

fn text_of(parts: &str) -> (r: String)
    ensures
        r@ == parts@,
{
    String::from_str(parts)
}

fn bool_string(b: bool) -> (r: &'static str)
    ensures
        r@ == bool_text(b),
{
    if b {
        "true"
    } else {
        "false"
    }
}

impl Expression for CellExpression {
    open spec fn kind(&self) -> ExprType {
        ExprType::Cell
    }

    open spec fn repr(&self) -> Seq<char> {
        decimal(self.ident as nat)
    }

    fn get_type(&self) -> (r: ExprType) {
        ExprType::Cell
    }

    fn get_repr(&self) -> (r: String) {
        decimal_string(self.ident as u64)
    }
}

impl PassiveExpression for CellExpression {
}

impl Expression for PrimitiveExpression {
    open spec fn kind(&self) -> ExprType {
        ExprType::Primitive
    }

    open spec fn repr(&self) -> Seq<char> {
        primitive_name(self.pval)
    }

    fn get_type(&self) -> (r: ExprType) {
        ExprType::Primitive
    }

    fn get_repr(&self) -> (r: String) {
        text_of(primitive_name_str(self.pval))
    }
}

impl PassiveExpression for PrimitiveExpression {
}

impl Expression for Passive {
    open spec fn kind(&self) -> ExprType {
        match self {
            Passive::Cell(_) => ExprType::Cell,
            Passive::Primitive(_) => ExprType::Primitive,
        }
    }

    open spec fn repr(&self) -> Seq<char> {
        passive_repr(*self)
    }

    fn get_type(&self) -> (r: ExprType) {
        match self {
            Passive::Cell(c) => c.get_type(),
            Passive::Primitive(p) => p.get_type(),
        }
    }

    fn get_repr(&self) -> (r: String) {
        match self {
            Passive::Cell(c) => c.get_repr(),
            Passive::Primitive(p) => p.get_repr(),
        }
    }
}

impl PassiveExpression for Passive {
}

impl Expression for LeachExpression {
    open spec fn kind(&self) -> ExprType {
        ExprType::Leach
    }

    open spec fn repr(&self) -> Seq<char> {
        leach_repr(*self)
    }

    fn get_type(&self) -> (r: ExprType) {
        ExprType::Leach
    }

    fn get_repr(&self) -> (r: String)
        decreases self,
    {
        let right = match &self.right {
            Some(r) => r.get_repr(),
            None => text_of("None"),
        };
        let mut s = text_of("(left: ");
        s.append(self.left.get_repr().as_str());
        s.append(", right: ");
        s.append(right.as_str());
        s.append(", is_chain: ");
        s.append(bool_string(self.is_chain));
        s.append(")");
        s
    }
}

impl Expression for RegionExpression {
    open spec fn kind(&self) -> ExprType {
        ExprType::Region
    }

    open spec fn repr(&self) -> Seq<char> {
        any_repr(AnyExpression::Region(*self))
    }

    fn get_type(&self) -> (r: ExprType) {
        ExprType::Region
    }

    fn get_repr(&self) -> (r: String) {
        match self.to {
            Region::Cells => text_of("(to: Cells)"),
            Region::Layers => text_of("(to: Layers)"),
        }
    }
}

impl Expression for DrillExpression {
    open spec fn kind(&self) -> ExprType {
        ExprType::Drill
    }

    open spec fn repr(&self) -> Seq<char> {
        "Drill"@
    }

    fn get_type(&self) -> (r: ExprType) {
        ExprType::Drill
    }

    fn get_repr(&self) -> (r: String) {
        text_of("Drill")
    }
}

impl Expression for LabelExpression {
    open spec fn kind(&self) -> ExprType {
        ExprType::Label
    }

    open spec fn repr(&self) -> Seq<char> {
        "(label: \""@ + self.label@ + "\")"@
    }

    fn get_type(&self) -> (r: ExprType) {
        ExprType::Label
    }

    fn get_repr(&self) -> (r: String) {
        let mut s = text_of("(label: \"");
        s.append(self.label.as_str());
        s.append("\")");
        s
    }
}

impl Expression for JumpExpression {
    open spec fn kind(&self) -> ExprType {
        ExprType::Jump
    }

    open spec fn repr(&self) -> Seq<char> {
        "(jump: to:\""@ + self.to@ + "\")"@
    }

    fn get_type(&self) -> (r: ExprType) {
        ExprType::Jump
    }

    fn get_repr(&self) -> (r: String) {
        let mut s = text_of("(jump: to:\"");
        s.append(self.to.as_str());
        s.append("\")");
        s
    }
}

impl Expression for DummyExpression {
    open spec fn kind(&self) -> ExprType {
        ExprType::Dummy
    }

    open spec fn repr(&self) -> Seq<char> {
        "Dummy Expression"@
    }

    fn get_type(&self) -> (r: ExprType) {
        ExprType::Dummy
    }

    fn get_repr(&self) -> (r: String) {
        text_of("Dummy Expression")
    }
}

impl Expression for AnyExpression {
    open spec fn kind(&self) -> ExprType {
        any_kind(*self)
    }

    open spec fn repr(&self) -> Seq<char> {
        any_repr(*self)
    }

    fn get_type(&self) -> (r: ExprType) {
        match self {
            AnyExpression::Cell(e) => e.get_type(),
            AnyExpression::Primitive(e) => e.get_type(),
            AnyExpression::Leach(e) => e.get_type(),
            AnyExpression::Region(e) => e.get_type(),
            AnyExpression::Drill(e) => e.get_type(),
            AnyExpression::Label(e) => e.get_type(),
            AnyExpression::Jump(e) => e.get_type(),
            AnyExpression::Dummy(e) => e.get_type(),
        }
    }

    fn get_repr(&self) -> (r: String) {
        match self {
            AnyExpression::Cell(e) => e.get_repr(),
            AnyExpression::Primitive(e) => e.get_repr(),
            AnyExpression::Leach(e) => e.get_repr(),
            AnyExpression::Region(e) => e.get_repr(),
            AnyExpression::Drill(e) => e.get_repr(),
            AnyExpression::Label(e) => e.get_repr(),
            AnyExpression::Jump(e) => e.get_repr(),
            AnyExpression::Dummy(e) => e.get_repr(),
        }
    }
}

impl Expression for OrganismExpression {
    open spec fn kind(&self) -> ExprType {
        ExprType::Organism
    }

    open spec fn repr(&self) -> Seq<char> {
        organism_repr(*self)
    }

    fn get_type(&self) -> (r: ExprType) {
        ExprType::Organism
    }

    fn get_repr(&self) -> (r: String)
        decreases self,
    {
        let right = match &self.right {
            Some(r) => r.get_repr(),
            None => text_of("None"),
        };
        let mut s = text_of("(child: (");
        s.append(self.child.get_repr().as_str());
        s.append("), right: (");
        s.append(right.as_str());
        s.append("))");
        s
    }
}

} // verus!
