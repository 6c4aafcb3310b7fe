//! Java AST node model: one compilation unit per `.java` file.

use vstd::prelude::*;

verus! {

/// A Java compilation unit (the AST root of one `.java` file).
pub struct CompilationUnit {
    pub package: Option<String>,
    pub imports: Vec<ImportDecl>,
    pub types: Vec<TypeDecl>,
    pub source_file: String,
    pub source_lines: Vec<String>,
    /// The parser's raw JSON text of this unit, for consumers that need it.
    pub raw_json: String,
}

/// An import declaration.
pub struct ImportDecl {
    pub package: String,
    pub is_wildcard: bool,
    pub is_static: bool,
    pub line: usize,
}

/// A top-level type declaration.
pub enum TypeDecl {
    ClassDeclaration(ClassDecl),
    InterfaceDeclaration(InterfaceDecl),
    EnumDeclaration(EnumDecl),
    AnnotationDeclaration(AnnotationDecl),
}

/// A class declaration.
pub struct ClassDecl {
    pub name: String,
    pub modifiers: Vec<String>,
    pub annotations: Vec<Annotation>,
    pub extends: Option<String>,
    pub implements: Vec<String>,
    pub members: Vec<MemberDecl>,
    pub line: usize,
    pub end_line: usize,
}

/// An enum declaration.
pub struct EnumDecl {
    pub name: String,
    pub modifiers: Vec<String>,
    pub annotations: Vec<Annotation>,
    pub implements: Vec<String>,
    pub constants: Vec<EnumConstant>,
    pub members: Vec<MemberDecl>,
    pub line: usize,
    pub end_line: usize,
}

/// An enum constant.
pub struct EnumConstant {
    pub name: String,
    pub annotations: Vec<Annotation>,
    pub line: usize,
}

/// An annotation type declaration.
pub struct AnnotationDecl {
    pub name: String,
    pub modifiers: Vec<String>,
    pub members: Vec<MemberDecl>,
    pub line: usize,
    pub end_line: usize,
}

/// An interface declaration.
pub struct InterfaceDecl {
    pub name: String,
    pub modifiers: Vec<String>,
    pub annotations: Vec<Annotation>,
    pub extends: Vec<String>,
    pub members: Vec<MemberDecl>,
    pub line: usize,
    pub end_line: usize,
}

/// A member declaration (field, method, constructor, initializer or nested type).
pub enum MemberDecl {
    FieldDeclaration(FieldDecl),
    MethodDeclaration(MethodDecl),
    ConstructorDeclaration(ConstructorDecl),
    InitializerDeclaration(InitializerDecl),
    ClassDeclaration(ClassDecl),
    InterfaceDeclaration(InterfaceDecl),
    EnumDeclaration(EnumDecl),
    AnnotationDeclaration(AnnotationDecl),
}

/// A field declaration.
pub struct FieldDecl {
    pub name: String,
    pub modifiers: Vec<String>,
    pub annotations: Vec<Annotation>,
    pub field_type: Option<String>,
    pub initializer: Option<Expr>,
    pub line: usize,
}

/// A method declaration.
pub struct MethodDecl {
    pub name: String,
    pub modifiers: Vec<String>,
    pub annotations: Vec<Annotation>,
    pub return_type: Option<String>,
    pub parameters: Vec<ParamDecl>,
    pub body: Option<BlockStmt>,
    pub line: usize,
    pub end_line: usize,
}

/// A constructor declaration.
pub struct ConstructorDecl {
    pub name: String,
    pub modifiers: Vec<String>,
    pub annotations: Vec<Annotation>,
    pub parameters: Vec<ParamDecl>,
    pub body: Option<BlockStmt>,
    pub line: usize,
    pub end_line: usize,
}

/// An initializer block (`static {}` or `{}`).
pub struct InitializerDecl {
    pub is_static: bool,
    pub body: BlockStmt,
    pub line: usize,
}

/// A parameter declaration.
pub struct ParamDecl {
    pub param_type: Option<String>,
    pub name: String,
    pub annotations: Vec<Annotation>,
}

/// An annotation use.
pub struct Annotation {
    pub name: String,
    pub members: Vec<AnnotationMember>,
    pub line: usize,
}

/// A key/value member of an annotation.
pub struct AnnotationMember {
    pub key: String,
    pub value: String,
}

/// A statement.
pub enum Stmt {
    ExpressionStmt(ExprStmt),
    VariableDeclarationStmt(VarDeclStmt),
    IfStmt(IfStmt),
    ForStmt(ForStmt),
    ForEachStmt(ForEachStmt),
    WhileStmt(WhileStmt),
    DoStmt(DoStmt),
    TryStmt(TryStmt),
    ReturnStmt(ReturnStmt),
    ThrowStmt(ThrowStmt),
    BreakStmt(BreakStmt),
    ContinueStmt(ContinueStmt),
    BlockStmt(BlockStmt),
    SwitchStmt(SwitchStmt),
    SynchronizedStmt(SynchronizedStmt),
    EmptyStmt,
    /// A statement kind the parser does not model.
    UnknownStmt { line: usize, value: String },
}

/// An expression statement.
pub struct ExprStmt {
    pub expr: Expr,
    pub line: usize,
}

/// A local variable declaration.
pub struct VarDeclStmt {
    pub var_type: Option<String>,
    pub declarations: Vec<VarDeclarator>,
    pub line: usize,
}

/// One declarator of a variable declaration.
pub struct VarDeclarator {
    pub name: String,
    pub initializer: Option<Expr>,
}

/// An `if` statement.
pub struct IfStmt {
    pub condition: Expr,
    pub then_stmt: Box<Stmt>,
    pub else_stmt: Option<Box<Stmt>>,
    pub line: usize,
}

/// A `for` statement.
pub struct ForStmt {
    pub initialization: Option<Expr>,
    pub condition: Option<Expr>,
    pub update: Vec<Expr>,
    pub body: Box<Stmt>,
    pub line: usize,
}

/// An enhanced `for` (for-each) statement.
pub struct ForEachStmt {
    pub variable: Expr,
    pub iterable: Expr,
    pub body: Box<Stmt>,
    pub line: usize,
}

/// A `while` statement.
pub struct WhileStmt {
    pub condition: Expr,
    pub body: Box<Stmt>,
    pub line: usize,
}

/// A `do`-`while` statement.
pub struct DoStmt {
    pub body: Box<Stmt>,
    pub condition: Expr,
    pub line: usize,
}

/// A `try` statement.
pub struct TryStmt {
    pub resources: Vec<String>,
    pub try_body: BlockStmt,
    pub catch_clauses: Vec<CatchClause>,
    pub finally_body: Option<BlockStmt>,
    pub line: usize,
}

/// A `catch` clause.
pub struct CatchClause {
    pub exception_type: Option<String>,
    pub exception_name: Option<String>,
    pub body: BlockStmt,
    pub line: usize,
}

/// A `return` statement.
pub struct ReturnStmt {
    pub expr: Option<Expr>,
    pub line: usize,
}

/// A `throw` statement.
pub struct ThrowStmt {
    pub expr: Expr,
    pub line: usize,
}

/// A `break` statement.
pub struct BreakStmt {
    pub label: Option<String>,
    pub line: usize,
}

/// A `continue` statement.
pub struct ContinueStmt {
    pub label: Option<String>,
    pub line: usize,
}

/// A block of statements.
pub struct BlockStmt {
    pub statements: Vec<Stmt>,
    pub line: usize,
    pub end_line: usize,
}

/// A `switch` statement.
pub struct SwitchStmt {
    pub selector: Expr,
    pub cases: Vec<SwitchCase>,
    pub line: usize,
}

/// One `case` (or `default` when the label is absent) of a switch.
pub struct SwitchCase {
    pub label: Option<Expr>,
    pub statements: Vec<Stmt>,
    pub line: usize,
}

/// A `synchronized` statement.
pub struct SynchronizedStmt {
    pub expr: Expr,
    pub body: BlockStmt,
    pub line: usize,
}

/// An expression.
pub enum Expr {
    MethodCallExpr(MethodCallExpr),
    FieldAccessExpr(FieldAccessExpr),
    NameExpr(NameExpr),
    LiteralExpr(LiteralExpr),
    BinaryExpr(BinaryExpr),
    UnaryExpr(UnaryExpr),
    AssignExpr(AssignExpr),
    CastExpr(CastExpr),
    ConditionalExpr(ConditionalExpr),
    ArrayAccessExpr(ArrayAccessExpr),
    ArrayCreationExpr(ArrayCreationExpr),
    ObjectCreationExpr(ObjectCreationExpr),
    ThisExpr(ThisExpr),
    SuperExpr(SuperExpr),
    InstanceOfExpr(InstanceOfExpr),
    LambdaExpr(LambdaExpr),
    MethodReferenceExpr(MethodReferenceExpr),
    /// The declaration part of a `for` initializer, such as `int i = 0`.
    VariableDeclarationExpr(VarDeclStmt),
    EnclosedExpr { inner: Box<Expr>, line: usize },
    /// An expression kind the parser does not model.
    UnknownExpr { line: usize, value: String },
}

/// A method call.
pub struct MethodCallExpr {
    pub callee: Option<String>,
    pub method_name: String,
    pub arguments: Vec<Expr>,
    pub line: usize,
}

/// A field access.
pub struct FieldAccessExpr {
    pub target: Box<Expr>,
    pub field: String,
    pub line: usize,
}

/// A name reference.
pub struct NameExpr {
    pub name: String,
    pub line: usize,
}

/// A literal.
pub struct LiteralExpr {
    pub value: String,
    pub literal_type: Option<String>,
    pub line: usize,
}

/// A binary operation.
pub struct BinaryExpr {
    pub left: Box<Expr>,
    pub op: String,
    pub right: Box<Expr>,
    pub line: usize,
}

/// A unary operation.
pub struct UnaryExpr {
    pub expr: Box<Expr>,
    pub op: String,
    pub prefix: bool,
    pub line: usize,
}

/// An assignment.
pub struct AssignExpr {
    pub target: Box<Expr>,
    pub op: String,
    pub value: Box<Expr>,
    pub line: usize,
}

/// A type cast.
pub struct CastExpr {
    pub cast_type: String,
    pub expr: Box<Expr>,
    pub line: usize,
}

/// A conditional (ternary) expression.
pub struct ConditionalExpr {
    pub condition: Box<Expr>,
    pub then_expr: Box<Expr>,
    pub else_expr: Box<Expr>,
    pub line: usize,
}

/// An array access.
pub struct ArrayAccessExpr {
    pub array: Box<Expr>,
    pub index: Box<Expr>,
    pub line: usize,
}

/// An array creation.
pub struct ArrayCreationExpr {
    pub element_type: String,
    pub initializer: Vec<Expr>,
    pub line: usize,
}

/// An object creation (`new`).
pub struct ObjectCreationExpr {
    pub class_name: String,
    pub arguments: Vec<Expr>,
    pub line: usize,
}

/// `this`.
pub struct ThisExpr {
    pub line: usize,
}

/// `super`.
pub struct SuperExpr {
    pub line: usize,
}

/// An `instanceof` test.
pub struct InstanceOfExpr {
    pub expr: Box<Expr>,
    pub check_type: String,
    pub line: usize,
}

/// A lambda expression.
pub struct LambdaExpr {
    pub parameters: Vec<String>,
    pub body: Box<Stmt>,
    pub line: usize,
}

/// A method reference (`::`).
pub struct MethodReferenceExpr {
    pub target: Option<String>,
    pub method: String,
    pub line: usize,
}

} // verus!
