use delete_log::operation::{AddOperation, DeleteOperation, UserOperation};

#[test]
fn operation_values_carry_their_fields() {
    let delete = DeleteOperation { opstamp: 7, target: "title:stale" };
    assert_eq!(delete.opstamp, 7);
    assert_eq!(delete.target, "title:stale");

    let add = AddOperation { opstamp: 8, document: "a document body" };
    assert_eq!(add.opstamp, 8);
    assert_eq!(add.document, "a document body");

    let user_add: UserOperation<&str, &str> = UserOperation::Add("another document");
    let user_delete: UserOperation<&str, &str> = UserOperation::Delete("title:old");
    assert!(matches!(user_add, UserOperation::Add(d) if d == "another document"));
    assert!(matches!(user_delete, UserOperation::Delete(t) if t == "title:old"));
}
